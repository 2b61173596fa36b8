//! The allocation list: every heap value the compiler creates (string
//! constants, compiled closures) is appended here, and the whole list is
//! handed to the execution engine so it can track live allocations.
//!
//! The list is externally owned: the compiler only ever appends to it,
//! never removes from it, and never assumes ownership beyond the append.

use vstd::prelude::*;

use crate::artifact::{FunModel, FunctionArtifact};

verus! {

/// The mathematical content of one heap object.
pub enum ObjModel {
    Str(Seq<char>),
    Function { arity: usize, function: FunModel },
}

/// One heap object created during compilation.
#[derive(Debug, Clone)]
pub enum HeapObject {
    /// A string constant.
    Str(String),
    /// A compiled closure, wrapped as a callable object with its arity.
    Function { arity: usize, function: FunctionArtifact },
}

impl View for HeapObject {
    type V = ObjModel;

    open spec fn view(&self) -> ObjModel {
        match self {
            HeapObject::Str(s) => ObjModel::Str(s@),
            HeapObject::Function { arity, function } => ObjModel::Function {
                arity: *arity,
                function: function@,
            },
        }
    }
}

/// The ever-growing list of heap objects, in allocation order. A
/// [`crate::value::Value::Obj`] refers to an entry by its index here.
#[derive(Debug, Clone)]
pub struct Allocations {
    objects: Vec<HeapObject>,
}

impl View for Allocations {
    type V = Seq<ObjModel>;

    closed spec fn view(&self) -> Seq<ObjModel> {
        Seq::new(self.objects@.len(), |i: int| self.objects@[i]@)
    }
}

impl Allocations {
    /// An empty allocation list.
    pub fn new() -> (allocations: Allocations)
        ensures
            allocations@ == Seq::<ObjModel>::empty(),
    {
        let allocations = Allocations { objects: Vec::new() };
        proof {
            assert(allocations@ =~= Seq::<ObjModel>::empty());
        }
        allocations
    }

    /// Appends one object and returns its index.
    pub fn append(&mut self, object: HeapObject) -> (index: usize)
        ensures
            final(self)@ == old(self)@.push(object@),
            index == old(self)@.len(),
    {
        let ghost obj_model = object@;
        let index = self.objects.len();
        self.objects.push(object);
        proof {
            assert(self@ =~= old(self)@.push(obj_model));
        }
        index
    }

    /// How many objects were allocated.
    pub fn len(&self) -> (n: usize)
        ensures
            n == self@.len(),
    {
        self.objects.len()
    }

    /// The object at `index`, in allocation order.
    pub fn get(&self, index: usize) -> (object: &HeapObject)
        requires
            index < self@.len(),
        ensures
            object@ == self@[index as int],
    {
        &self.objects[index]
    }
}

} // verus!
