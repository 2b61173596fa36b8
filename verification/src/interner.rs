//! The symbol interner: a stable mapping from interned identifiers to
//! their names, supplied by the upstream pass together with the tree.
//!
//! The compiler consults it in exactly one place: to decide whether a
//! callee is one of the fixed native-function names.

use vstd::prelude::*;

verus! {

/// An interned identifier. The upstream passes assign them; the compiler
/// treats them as opaque tags, except that the interner can map one back
/// to its name.
pub type Symbol = u32;

/// The closed set of native-function names: a call to one of these
/// compiles to the `CALLNATIVE` instruction.
pub open spec fn is_native_name(name: Seq<char>) -> bool {
    ||| name == "clock"@
    ||| name == "random"@
    ||| name == "read"@
    ||| name == "fopen"@
}

/// The identifier-to-name table. Symbol `s` names `self@[s as int]`; a
/// symbol at or past the table's length is unknown, and looking it up is
/// an upstream contract violation.
#[derive(Debug, Clone)]
pub struct Interner {
    names: Vec<String>,
}

impl View for Interner {
    type V = Seq<Seq<char>>;

    closed spec fn view(&self) -> Seq<Seq<char>> {
        Seq::new(self.names@.len(), |i: int| self.names@[i]@)
    }
}

impl Interner {
    /// An empty table.
    pub fn new() -> (itn: Interner)
        ensures
            itn@ == Seq::<Seq<char>>::empty(),
    {
        let itn = Interner { names: Vec::new() };
        proof {
            assert(itn@ =~= Seq::<Seq<char>>::empty());
        }
        itn
    }

    /// Interns one more name and returns its symbol.
    pub fn intern(&mut self, name: String) -> (symbol: Symbol)
        requires
            old(self)@.len() < u32::MAX,
        ensures
            final(self)@ == old(self)@.push(name@),
            symbol == old(self)@.len(),
    {
        let symbol = self.names.len() as u32;
        self.names.push(name);
        proof {
            assert(self@ =~= old(self)@.push(name@));
        }
        symbol
    }

    /// How many names are interned.
    pub fn len(&self) -> (n: usize)
        ensures
            n == self@.len(),
    {
        self.names.len()
    }

    /// The name behind a symbol. The caller must know the symbol is in the
    /// table; an unknown symbol is an upstream contract violation.
    pub fn name(&self, symbol: Symbol) -> (name: &String)
        requires
            (symbol as int) < self@.len(),
        ensures
            name@ == self@[symbol as int],
    {
        &self.names[symbol as usize]
    }
}

/// Decides whether `name` is one of the native-function names.
pub fn is_native(name: &String) -> (r: bool)
    ensures
        r == is_native_name(name@),
{
    let clock: String = "clock".to_owned();
    let random: String = "random".to_owned();
    let read: String = "read".to_owned();
    let fopen: String = "fopen".to_owned();
    *name == clock || *name == random || *name == read || *name == fopen
}

} // verus!
