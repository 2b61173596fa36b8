//! Source positions and spans, used for diagnostics and for the
//! per-instruction line table.

use vstd::prelude::*;

verus! {

/// A point in the source text.
#[derive(Debug, Clone, Copy, PartialEq, Eq, Structural)]
pub struct Position {
    pub line: u32,
    pub column: u32,
}

/// A region of the source text, attached to every reported error and to
/// every syntax-tree node.
#[derive(Debug, Clone, Copy, PartialEq, Eq, Structural)]
pub struct Span {
    pub start: Position,
    pub end: Position,
}

/// A syntax-tree node together with the source region it came from.
#[derive(Debug, Clone)]
pub struct Spanned<T> {
    pub span: Span,
    pub value: T,
}

} // verus!
