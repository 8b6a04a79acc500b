//! The program that is lowered and interpreted: its functions in
//! declaration order, the names of the embedded intrinsics, and the modulus
//! of the field that values of field type live in.

use crate::ast::{FuncV, FunctionDefinition};
use vstd::prelude::*;

verus! {

/// A program together with what lowering and interpretation need to know
/// of its surroundings.
pub struct ZGen {
    /// The functions, in the order in which the source declares them.
    pub functions: Vec<FunctionDefinition>,
    /// The names of the embedded intrinsics. A call to one of them is left
    /// as it is.
    pub embedded: Vec<String>,
    /// The modulus of the field. Field values are the numbers below it.
    pub modulus: u64,
}

/// The view of a [`ZGen`].
pub struct ProgV {
    pub functions: Seq<FuncV>,
    pub embedded: Seq<Seq<char>>,
    pub modulus: u64,
}

impl View for ZGen {
    type V = ProgV;

    open spec fn view(&self) -> ProgV {
        ProgV {
            functions: Seq::new(self.functions@.len(), |i: int| self.functions@[i]@),
            embedded: self.embedded.deep_view(),
            modulus: self.modulus,
        }
    }
}

/// The index of the first function from `i` on that is called `name`.
pub open spec fn find_function_from(fs: Seq<FuncV>, name: Seq<char>, i: int) -> Option<int>
    decreases fs.len() - i,
{
    if i >= fs.len() {
        None
    } else if fs[i].id == name {
        Some(i)
    } else {
        find_function_from(fs, name, i + 1)
    }
}

impl ProgV {
    /// The index of the first function called `name`.
    pub open spec fn find_function(self, name: Seq<char>) -> Option<int> {
        find_function_from(self.functions, name, 0)
    }

    /// Whether `name` is an embedded intrinsic.
    pub open spec fn is_embed(self, name: Seq<char>) -> bool {
        self.embedded.contains(name)
    }
}

/// Where `find_function_from` finds a function, it is one called `name`.
pub proof fn lemma_find_function_from(fs: Seq<FuncV>, name: Seq<char>, i: int)
    requires
        0 <= i,
    ensures
        match find_function_from(fs, name, i) {
            Some(k) => i <= k < fs.len() && fs[k].id == name,
            None => forall|j: int| i <= j < fs.len() ==> fs[j].id != name,
        },
    decreases fs.len() - i,
{
    if i < fs.len() && fs[i].id != name {
        lemma_find_function_from(fs, name, i + 1);
    }
}

impl ZGen {
    /// A program over the field of the given modulus.
    pub fn new(functions: Vec<FunctionDefinition>, embedded: Vec<String>, modulus: u64) -> (r:
        ZGen)
        ensures
            r.functions == functions,
            r.embedded == embedded,
            r.modulus == modulus,
    {
        ZGen { functions, embedded, modulus }
    }

    /// The index of the first function called `name`.
    pub fn find_function(&self, name: &String) -> (r: Option<usize>)
        ensures
            match r {
                Some(k) => self@.find_function(name@) == Some(k as int) && k < self.functions.len(),
                None => self@.find_function(name@) is None,
            },
    {
        let mut i: usize = 0;
        while i < self.functions.len()
            invariant
                i <= self.functions.len(),
                self@.find_function(name@) == find_function_from(
                    self@.functions,
                    name@,
                    i as int,
                ),
            decreases self.functions.len() - i,
        {
            if self.functions[i].id == *name {
                return Some(i);
            }
            i += 1;
        }
        None
    }

    /// Whether `name` is an embedded intrinsic.
    pub fn is_embed(&self, name: &String) -> (r: bool)
        ensures
            r == self@.is_embed(name@),
    {
        let mut i: usize = 0;
        while i < self.embedded.len()
            invariant
                i <= self.embedded.len(),
                forall|j: int| 0 <= j < i ==> self@.embedded[j] != name@,
            decreases self.embedded.len() - i,
        {
            if self.embedded[i] == *name {
                assert(self@.embedded[i as int] == name@);
                return true;
            }
            i += 1;
        }
        false
    }
}

} // verus!
