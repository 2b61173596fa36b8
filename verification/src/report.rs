//! The error-reporting sink: compile errors are recorded here as
//! (message, source-span) pairs. Rendering them is the caller's concern.

use vstd::prelude::*;

use crate::pos::Span;

verus! {

/// The mathematical content of one recorded diagnostic.
pub struct DiagModel {
    pub message: Seq<char>,
    pub span: Span,
}

/// One recorded compile error.
#[derive(Debug, Clone)]
pub struct Diagnostic {
    pub message: String,
    pub span: Span,
}

impl View for Diagnostic {
    type V = DiagModel;

    closed spec fn view(&self) -> DiagModel {
        DiagModel { message: self.message@, span: self.span }
    }
}

/// The sink that collects every reported error, in the order reported.
#[derive(Debug, Clone)]
pub struct Reporter {
    diagnostics: Vec<Diagnostic>,
}

impl View for Reporter {
    type V = Seq<DiagModel>;

    closed spec fn view(&self) -> Seq<DiagModel> {
        Seq::new(self.diagnostics@.len(), |i: int| self.diagnostics@[i]@)
    }
}

impl Reporter {
    /// A sink with nothing reported yet.
    pub fn new() -> (reporter: Reporter)
        ensures
            reporter@ == Seq::<DiagModel>::empty(),
    {
        let reporter = Reporter { diagnostics: Vec::new() };
        proof {
            assert(reporter@ =~= Seq::<DiagModel>::empty());
        }
        reporter
    }

    /// Records one error with the source span it points at.
    pub fn error(&mut self, message: &str, span: Span)
        ensures
            final(self)@ == old(self)@.push(DiagModel { message: message@, span }),
    {
        self.diagnostics.push(Diagnostic { message: message.to_owned(), span });
        proof {
            assert(self@ =~= old(self)@.push(DiagModel { message: message@, span }));
        }
    }

    /// How many errors were reported.
    pub fn len(&self) -> (n: usize)
        ensures
            n == self@.len(),
    {
        self.diagnostics.len()
    }

    /// The `i`th reported error, in report order.
    pub fn get(&self, i: usize) -> (d: &Diagnostic)
        requires
            i < self@.len(),
        ensures
            d@ == self@[i as int],
    {
        &self.diagnostics[i]
    }
}

} // verus!
