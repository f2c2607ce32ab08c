use crate::ast::{BinaryOp, UnaryOp};
use crate::text::{owned, str_eq};
use crate::value::Type;
use vstd::prelude::*;

verus! {

/// A table of values, each under a name and an index: indices count up
/// from 0 in the order of insertion, and no name occurs twice.
pub struct NameMap<T> {
    data: Vec<T>,
    names: Vec<String>,
}

impl<T> NameMap<T> {
    /// The names, in the order of their indices.
    pub closed spec fn keys(&self) -> Seq<Seq<char>> {
        self.names@.map_values(|s: String| s@)
    }

    /// The values, in the order of their indices.
    pub closed spec fn values(&self) -> Seq<T> {
        self.data@
    }

    /// Names and values pair up, and no name occurs twice.
    pub closed spec fn wf(&self) -> bool {
        &&& self.names.len() == self.data.len()
        &&& forall|i: int, j: int|
            0 <= i < j < self.names.len() ==> self.names@[i]@ != self.names@[j]@
    }

    /// The index of a name, if it is in the table.
    pub open spec fn index_of(&self, name: Seq<char>) -> Option<int> {
        if exists|i: int| 0 <= i < self.keys().len() && self.keys()[i] == name {
            Some(choose|i: int| 0 <= i < self.keys().len() && self.keys()[i] == name)
        } else {
            None
        }
    }

    /// In a well-formed table every name is paired with one value, and no
    /// name occurs twice; the index of a name, where it has one, is that of
    /// its value, so that looking a name up in full gives what its index
    /// then gives.
    pub proof fn lemma_names_pair_values(&self, name: Seq<char>)
        requires
            self.wf(),
        ensures
            self.keys().len() == self.values().len(),
            forall|i: int, j: int| 0 <= i < j < self.keys().len() ==> self.keys()[i] != self.keys()[j],
            self.index_of(name) matches Some(i) ==> 0 <= i < self.values().len() && self.keys()[i] == name,
    {
        if let Some(i) = self.index_of(name) {
            self.lemma_index_of(i);
        }
    }

    /// An empty table.
    pub fn new() -> (m: NameMap<T>)
        ensures
            m.wf(),
            m.keys() == Seq::<Seq<char>>::empty(),
            m.values() == Seq::<T>::empty(),
    {
        let m = NameMap { data: Vec::new(), names: Vec::new() };
        assert(m.keys() =~= Seq::<Seq<char>>::empty());
        m
    }

    /// The values, in the order of their indices.
    pub fn data(&self) -> (d: &Vec<T>)
        ensures
            d@ == self.values(),
    {
        &self.data
    }

    /// Finds the index of a name.
    fn find(&self, name: &str) -> (r: Option<usize>)
        requires
            self.wf(),
        ensures
            r matches Some(i) ==> i < self.keys().len() && self.keys()[i as int] == name@,
            r is None ==> forall|i: int| 0 <= i < self.keys().len() ==> self.keys()[i] != name@,
    {
        let mut i: usize = 0;
        while i < self.names.len()
            invariant
                self.wf(),
                i <= self.names.len(),
                forall|k: int| 0 <= k < i ==> self.keys()[k] != name@,
            decreases self.names.len() - i,
        {
            if str_eq(self.names[i].as_str(), name) {
                return Some(i);
            }
            i = i + 1;
        }
        None
    }

    /// A name in the table has exactly one index.
    proof fn lemma_index_of(&self, i: int)
        requires
            self.wf(),
            0 <= i < self.keys().len(),
        ensures
            self.index_of(self.keys()[i]) == Some(i),
    {
        let name = self.keys()[i];
        let j = choose|j: int| 0 <= j < self.keys().len() && self.keys()[j] == name;
        if j != i {
            if j < i {
                assert(self.names@[j]@ != self.names@[i]@);
            } else {
                assert(self.names@[i]@ != self.names@[j]@);
            }
        }
    }

    /// Whether a name is in the table.
    pub fn contains_key(&self, name: &str) -> (b: bool)
        requires
            self.wf(),
        ensures
            b == self.index_of(name@) is Some,
    {
        match self.find(name) {
            Some(i) => {
                proof {
                    self.lemma_index_of(i as int);
                }
                true
            },
            None => false,
        }
    }

    /// Adds a value under a new name at the next index and returns that
    /// index; a name already in the table keeps its value and index.
    pub fn insert(&mut self, name: &str, value: T) -> (idx: usize)
        requires
            old(self).wf(),
            old(self).values().len() < usize::MAX,
        ensures
            final(self).wf(),
            match old(self).index_of(name@) {
                Some(i) => idx == i && final(self).keys() == old(self).keys() && final(self).values()
                    == old(self).values(),
                None => {
                    &&& idx == old(self).values().len()
                    &&& final(self).keys() == old(self).keys().push(name@)
                    &&& final(self).values() == old(self).values().push(value)
                },
            },
    {
        if let Some(id) = self.get_idx(name) {
            return id;
        }
        let idx = self.data.len();
        self.data.push(value);
        self.names.push(owned(name));
        assert(self.keys() =~= old(self).keys().push(name@));
        assert forall|i: int, j: int| 0 <= i < j < self.names.len() implies self.names@[i]@
            != self.names@[j]@ by {
            if j == old(self).names.len() {
                assert(old(self).keys()[i] == self.names@[i]@);
            }
        }
        idx
    }

    /// The value under a name.
    pub fn get_name(&self, name: &str) -> (r: Option<&T>)
        requires
            self.wf(),
        ensures
            match self.index_of(name@) {
                Some(i) => r == Some(&self.values()[i]),
                None => r is None,
            },
    {
        match self.find(name) {
            Some(i) => {
                proof {
                    self.lemma_index_of(i as int);
                }
                Some(&self.data[i])
            },
            None => None,
        }
    }

    /// The value under a name, to change it in place.
    pub fn get_name_mut(&mut self, name: &str) -> (r: Option<&mut T>)
        requires
            old(self).wf(),
        ensures
            final(self).wf(),
            final(self).keys() == old(self).keys(),
            match old(self).index_of(name@) {
                Some(i) => r matches Some(x) && *x == old(self).values()[i] && final(self).values()
                    == old(self).values().update(i, *final(x)),
                None => r is None && final(self).values() == old(self).values(),
            },
    {
        match self.find(name) {
            Some(i) => {
                proof {
                    self.lemma_index_of(i as int);
                }
                Some(&mut self.data[i])
            },
            None => None,
        }
    }

    /// The index of a name.
    pub fn get_idx(&self, name: &str) -> (r: Option<usize>)
        requires
            self.wf(),
        ensures
            match self.index_of(name@) {
                Some(i) => r == Some(i as usize),
                None => r is None,
            },
    {
        match self.find(name) {
            Some(i) => {
                proof {
                    self.lemma_index_of(i as int);
                }
                Some(i)
            },
            None => None,
        }
    }

    /// The index of a name together with its value.
    pub fn get_full(&self, name: &str) -> (r: Option<(usize, &T)>)
        requires
            self.wf(),
        ensures
            match self.index_of(name@) {
                Some(i) => r matches Some(p) && p.0 == i && p.1 == &self.values()[i],
                None => r is None,
            },
    {
        let idx = self.get_idx(name)?;
        Some((idx, &self.data[idx]))
    }

    /// The value at an index.
    pub fn get(&self, idx: usize) -> (r: Option<&T>)
        ensures
            idx < self.values().len() ==> r == Some(&self.values()[idx as int]),
            idx >= self.values().len() ==> r is None,
    {
        if idx < self.data.len() {
            Some(&self.data[idx])
        } else {
            None
        }
    }
}

/// The places of the `break` and `continue` jumps of a loop body, to be
/// patched once the loop's ends are known.
pub struct JumpIndex {
    pub breaks: Vec<usize>,
    pub continues: Vec<usize>,
}

impl JumpIndex {
    /// No jumps.
    pub fn new() -> (j: JumpIndex)
        ensures
            j.breaks@ == Seq::<usize>::empty(),
            j.continues@ == Seq::<usize>::empty(),
    {
        JumpIndex { breaks: Vec::new(), continues: Vec::new() }
    }

    /// Appends the jumps of `other` after these.
    pub fn extend(&mut self, other: JumpIndex)
        ensures
            final(self).breaks@ == old(self).breaks@ + other.breaks@,
            final(self).continues@ == old(self).continues@ + other.continues@,
    {
        let mut other = other;
        self.breaks.append(&mut other.breaks);
        self.continues.append(&mut other.continues);
    }
}

/// A struct type of the code generator: its name and fields.
pub struct StructType {
    pub name: String,
    pub fields: Vec<Field>,
}

/// A field of a struct type.
pub struct Field {
    pub name: String,
    pub ty: Type,
}

/// The signature of a function of the code generator.
pub struct FnType {
    pub args: Vec<Type>,
    pub return_ty: Option<Type>,
    pub self_ty: Option<Type>,
}

/// A local variable of the code generator: its slot and type.
pub struct LocalVar {
    pub idx: u32,
    pub ty: Type,
}

/// What a member access on a struct finds.
pub enum Member {
    Field { offset: usize, ty: Type },
    Method { idx: usize, return_ty: Type },
}

/// The code generator's errors.
pub enum Error {
    DuplicateDef { name: String },
    UndefinedIdent { name: String },
    CanNotAssignTo { target: String },
    UnknownType { name: String },
    UnsupportBinaryOp { op: BinaryOp, left: Type, right: Type },
    UnsupportUnaryOp { op: UnaryOp, ty: Type },
    MemberAssign,
    MissStructField { struct_name: String, field_name: String },
    MissingEntryPoint,
    NonBooleanCondition,
    NonBooleanAnd,
    NonBooleanOr,
    InvalidBreak,
    InvalidContinue,
}

} // verus!
