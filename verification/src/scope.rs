//! The scope resolver: a stack-discipline symbol table mapping identifiers
//! to storage slots, with shadowing across nested lexical scopes.
//!
//! The table is one stack of entries: a binding entry records one
//! declaration, a marker entry records a scope boundary. Entering a scope
//! pushes a marker; leaving it pops everything back to (and including) the
//! most recent marker, restoring any shadowed bindings; resolving an
//! identifier finds the binding nearest the top.

use vstd::prelude::*;

use crate::interner::Symbol;

verus! {

/// One entry of the scope stack: `None` is a scope-boundary marker,
/// `Some((identifier, slot))` is a declaration.
pub type ScopeEntry = Option<(Symbol, usize)>;

/// The innermost slot bound to `key`: the value of the binding entry
/// nearest the top of the stack, across scope boundaries.
pub open spec fn scope_lookup(entries: Seq<ScopeEntry>, key: Symbol) -> Option<usize>
    decreases entries.len(),
{
    if entries.len() == 0 {
        None
    } else {
        match entries.last() {
            Some(binding) => if binding.0 == key {
                Some(binding.1)
            } else {
                scope_lookup(entries.drop_last(), key)
            },
            None => scope_lookup(entries.drop_last(), key),
        }
    }
}

/// The stack after leaving the current scope: every entry above the most
/// recent marker is popped, and so is the marker itself. On a stack with
/// no marker everything is popped.
pub open spec fn scope_exit(entries: Seq<ScopeEntry>) -> Seq<ScopeEntry>
    decreases entries.len(),
{
    if entries.len() == 0 {
        entries
    } else {
        match entries.last() {
            Some(_) => scope_exit(entries.drop_last()),
            None => entries.drop_last(),
        }
    }
}

/// The scope-resolver state: a stack of declarations interleaved with
/// scope-boundary markers.
#[derive(Debug, Clone)]
pub struct StackedMap {
    entries: Vec<ScopeEntry>,
}

impl View for StackedMap {
    type V = Seq<ScopeEntry>;

    closed spec fn view(&self) -> Seq<ScopeEntry> {
        self.entries@
    }
}

impl StackedMap {
    /// An empty table with no open scope.
    pub fn new() -> (map: StackedMap)
        ensures
            map@ == Seq::<ScopeEntry>::empty(),
    {
        StackedMap { entries: Vec::new() }
    }

    /// Opens a nested scope: pushes a boundary marker.
    pub fn begin_scope(&mut self)
        ensures
            final(self)@ == old(self)@.push(None),
    {
        self.entries.push(None);
    }

    /// Closes the current scope: pops every declaration made since the
    /// matching `begin_scope`, restoring the bindings they shadowed.
    pub fn end_scope(&mut self)
        ensures
            final(self)@ == scope_exit(old(self)@),
    {
        let ghost orig = self@;
        let mut stop = false;
        while !stop
            invariant
                stop ==> self@ == scope_exit(orig),
                !stop ==> scope_exit(self@) == scope_exit(orig),
            decreases (if stop { 0int } else { 1int }), self@.len(),
        {
            let ghost before = self@;
            match self.entries.pop() {
                Some(entry) => {
                    proof {
                        assert(before.drop_last() =~= self@);
                    }
                    if entry.is_none() {
                        stop = true;
                    }
                },
                None => {
                    stop = true;
                },
            }
        }
    }

    /// Declares `key` in the current scope, bound to `value`, shadowing
    /// any outer binding of the same identifier until the scope closes.
    pub fn insert(&mut self, key: Symbol, value: usize)
        ensures
            final(self)@ == old(self)@.push(Some((key, value))),
    {
        self.entries.push(Some((key, value)));
    }

    /// Resolves `key` to the innermost binding, or `None` when no
    /// enclosing scope declares it.
    pub fn get(&self, key: Symbol) -> (r: Option<usize>)
        ensures
            r == scope_lookup(self@, key),
    {
        let mut i = self.entries.len();
        proof {
            assert(self@.subrange(0, i as int) =~= self@);
        }
        while i > 0
            invariant
                i <= self@.len(),
                scope_lookup(self@, key) == scope_lookup(self@.subrange(0, i as int), key),
            decreases i,
        {
            i = i - 1;
            proof {
                assert(self@.subrange(0, i + 1).drop_last() =~= self@.subrange(0, i as int));
                assert(self@.subrange(0, i + 1).last() == self@[i as int]);
            }
            match self.entries[i] {
                Some(binding) => {
                    if binding.0 == key {
                        return Some(binding.1);
                    }
                },
                None => {},
            }
        }
        proof {
            assert(self@.subrange(0, 0) =~= Seq::<ScopeEntry>::empty());
        }
        None
    }
}

} // verus!
