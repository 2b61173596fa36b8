//! The compiled artifacts: what one compilation pass produces and hands to
//! the execution engine.
//!
//! Name-to-artifact tables are association lists in insertion order; a
//! later entry for the same name replaces an earlier one on lookup, so
//! lookups scan from the most recent entry backwards.

use vstd::prelude::*;

use crate::chunk::{Chunk, ChunkModel};
use crate::interner::Symbol;

verus! {

/// The most recent entry for `key`, or `None` when there is none.
pub open spec fn assoc_lookup<T>(entries: Seq<(Symbol, T)>, key: Symbol) -> Option<T>
    decreases entries.len(),
{
    if entries.len() == 0 {
        None
    } else if entries.last().0 == key {
        Some(entries.last().1)
    } else {
        assoc_lookup(entries.drop_last(), key)
    }
}

/// Whether some entry binds `key`.
pub open spec fn assoc_contains<T>(entries: Seq<(Symbol, T)>, key: Symbol) -> bool {
    assoc_lookup(entries, key) is Some
}

/// The mathematical content of a [`FunctionArtifact`].
pub struct FunModel {
    pub name: Symbol,
    pub params: Seq<(Symbol, usize)>,
    pub body: ChunkModel,
}

/// One compiled function: its name, its parameter-name-to-index mapping,
/// and its instruction chunk.
#[derive(Debug, Clone)]
pub struct FunctionArtifact {
    pub name: Symbol,
    pub params: Vec<(Symbol, usize)>,
    pub body: Chunk,
}

impl View for FunctionArtifact {
    type V = FunModel;

    open spec fn view(&self) -> FunModel {
        FunModel { name: self.name, params: self.params@, body: self.body@ }
    }
}

/// The model of a name-to-function table, entry by entry.
pub open spec fn table_model(entries: Seq<(Symbol, FunctionArtifact)>) -> Seq<(Symbol, FunModel)> {
    Seq::new(entries.len(), |i: int| (entries[i].0, entries[i].1@))
}

/// The model of a name-to-class table, entry by entry.
pub open spec fn classes_model(entries: Seq<(Symbol, ClassArtifact)>) -> Seq<(Symbol, ClassModel)> {
    Seq::new(entries.len(), |i: int| (entries[i].0, entries[i].1@))
}

/// An element-wise copy of a vector of plain values.
fn copied<T: Copy>(v: &Vec<T>) -> (r: Vec<T>)
    ensures
        r@ == v@,
{
    let mut r: Vec<T> = Vec::new();
    let mut i: usize = 0;
    while i < v.len()
        invariant
            i <= v@.len(),
            r@ == v@.subrange(0, i as int),
        decreases v@.len() - i,
    {
        r.push(v[i]);
        proof {
            assert(v@.subrange(0, i as int).push(v@[i as int]) =~= v@.subrange(0, i + 1));
        }
        i = i + 1;
    }
    proof {
        assert(v@.subrange(0, v@.len() as int) =~= v@);
    }
    r
}

impl FunctionArtifact {
    /// An independent copy with the same mathematical content, used when a
    /// superclass method is copied into a subclass's table.
    pub fn duplicate(&self) -> (r: FunctionArtifact)
        ensures
            r@ == self@,
    {
        FunctionArtifact {
            name: self.name,
            params: copied(&self.params),
            body: Chunk {
                code: copied(&self.body.code),
                lines: copied(&self.body.lines),
                constants: copied(&self.body.constants),
            },
        }
    }
}

/// The mathematical content of a [`ClassArtifact`].
pub struct ClassModel {
    pub name: Symbol,
    pub methods: Seq<(Symbol, FunModel)>,
}

/// One compiled class: its name and its method table. Single inheritance
/// is resolved at compile time: the table already holds every inherited
/// method the class does not override, so the execution engine never walks
/// an inheritance chain.
#[derive(Debug, Clone)]
pub struct ClassArtifact {
    pub name: Symbol,
    pub methods: Vec<(Symbol, FunctionArtifact)>,
}

impl View for ClassArtifact {
    type V = ClassModel;

    open spec fn view(&self) -> ClassModel {
        ClassModel { name: self.name, methods: table_model(self.methods@) }
    }
}

impl ClassArtifact {
    /// Looks a method up by name, most recent entry first.
    pub fn method(&self, name: Symbol) -> (r: Option<&FunctionArtifact>)
        ensures
            match r {
                Some(f) => assoc_lookup(self@.methods, name) == Some(f@),
                None => assoc_lookup(self@.methods, name) is None,
            },
    {
        let mut i = self.methods.len();
        proof {
            assert(self@.methods.subrange(0, i as int) =~= self@.methods);
        }
        while i > 0
            invariant
                i <= self@.methods.len(),
                assoc_lookup(self@.methods, name) == assoc_lookup(
                    self@.methods.subrange(0, i as int),
                    name,
                ),
            decreases i,
        {
            i = i - 1;
            proof {
                assert(self@.methods.subrange(0, i + 1).drop_last() =~= self@.methods.subrange(
                    0,
                    i as int,
                ));
                assert(self@.methods.subrange(0, i + 1).last() == self@.methods[i as int]);
            }
            if self.methods[i].0 == name {
                return Some(&self.methods[i].1);
            }
        }
        None
    }
}

/// The mathematical content of a [`ProgramArtifact`].
pub struct ProgramModel {
    pub functions: Seq<(Symbol, FunModel)>,
    pub classes: Seq<(Symbol, ClassModel)>,
}

/// The finished program: the unit handed to the execution engine, together
/// with the allocation list of every heap constant created while
/// compiling.
#[derive(Debug, Clone)]
pub struct ProgramArtifact {
    pub functions: Vec<(Symbol, FunctionArtifact)>,
    pub classes: Vec<(Symbol, ClassArtifact)>,
}

impl View for ProgramArtifact {
    type V = ProgramModel;

    open spec fn view(&self) -> ProgramModel {
        ProgramModel {
            functions: table_model(self.functions@),
            classes: classes_model(self.classes@),
        }
    }
}

impl ProgramArtifact {
    /// Looks a top-level function up by name.
    pub fn function(&self, name: Symbol) -> (r: Option<&FunctionArtifact>)
        ensures
            match r {
                Some(f) => assoc_lookup(self@.functions, name) == Some(f@),
                None => assoc_lookup(self@.functions, name) is None,
            },
    {
        let mut i = self.functions.len();
        proof {
            assert(self@.functions.subrange(0, i as int) =~= self@.functions);
        }
        while i > 0
            invariant
                i <= self@.functions.len(),
                assoc_lookup(self@.functions, name) == assoc_lookup(
                    self@.functions.subrange(0, i as int),
                    name,
                ),
            decreases i,
        {
            i = i - 1;
            proof {
                assert(self@.functions.subrange(0, i + 1).drop_last() =~= self@.functions.subrange(
                    0,
                    i as int,
                ));
                assert(self@.functions.subrange(0, i + 1).last() == self@.functions[i as int]);
            }
            if self.functions[i].0 == name {
                return Some(&self.functions[i].1);
            }
        }
        None
    }

    /// Looks a class up by name.
    pub fn class(&self, name: Symbol) -> (r: Option<&ClassArtifact>)
        ensures
            match r {
                Some(c) => assoc_lookup(self@.classes, name) == Some(c@),
                None => assoc_lookup(self@.classes, name) is None,
            },
    {
        let mut i = self.classes.len();
        proof {
            assert(self@.classes.subrange(0, i as int) =~= self@.classes);
        }
        while i > 0
            invariant
                i <= self@.classes.len(),
                assoc_lookup(self@.classes, name) == assoc_lookup(
                    self@.classes.subrange(0, i as int),
                    name,
                ),
            decreases i,
        {
            i = i - 1;
            proof {
                assert(self@.classes.subrange(0, i + 1).drop_last() =~= self@.classes.subrange(
                    0,
                    i as int,
                ));
                assert(self@.classes.subrange(0, i + 1).last() == self@.classes[i as int]);
            }
            if self.classes[i].0 == name {
                return Some(&self.classes[i].1);
            }
        }
        None
    }
}

} // verus!
