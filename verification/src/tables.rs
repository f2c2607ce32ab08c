use crate::semantic::SemanticError;
use crate::text::{owned, str_eq};
use crate::ty::{FunctionId, StructId};
use crate::type_ast::{FunctionDef, StructDef};
use vstd::prelude::*;

verus! {

/// Finds a name in a list of names.
fn find_name(names: &Vec<String>, name: &str) -> (r: Option<usize>)
    ensures
        r matches Some(i) ==> i < names@.len() && names@[i as int]@ == name@,
        r is None ==> forall|i: int| 0 <= i < names@.len() ==> names@[i]@ != name@,
        r matches Some(i) ==> forall|j: int| 0 <= j < i ==> names@[j]@ != name@,
{
    let mut i: usize = 0;
    while i < names.len()
        invariant
            i <= names@.len(),
            forall|j: int| 0 <= j < i ==> names@[j]@ != name@,
        decreases names.len() - i,
    {
        if str_eq(names[i].as_str(), name) {
            return Some(i);
        }
        i = i + 1;
    }
    None
}

/// The first index of a name in a list of names.
pub open spec fn first_index(names: Seq<Seq<char>>, name: Seq<char>) -> Option<int> {
    if exists|i: int|
        0 <= i < names.len() && names[i] == name && forall|j: int| 0 <= j < i ==> names[j] != name {
        Some(choose|i: int| 0 <= i < names.len() && names[i] == name && forall|j: int| 0 <= j < i ==> names[j] != name)
    } else {
        None
    }
}

/// The structs of a program, by name and by id; ids count up from 0 in the
/// order of insertion.
pub struct StructTable {
    names: Vec<String>,
    struct_defs: Vec<StructDef>,
}

impl StructTable {
    /// The names, by id.
    pub closed spec fn names(&self) -> Seq<Seq<char>> {
        self.names@.map_values(|s: String| s@)
    }

    /// The definitions, by id.
    pub closed spec fn defs(&self) -> Seq<StructDef> {
        self.struct_defs@
    }

    /// Every definition has its name, and no name occurs twice.
    pub closed spec fn wf(&self) -> bool {
        &&& self.names@.len() == self.struct_defs@.len()
        &&& forall|i: int| 0 <= i < self.names@.len() ==> self.names@[i]@ == #[trigger] self.struct_defs@[i].name@
        &&& self.names().no_duplicates()
    }

    /// No two structs of a well-formed table share a name, and every name
    /// has its definition.
    pub proof fn lemma_names_distinct(&self)
        requires
            self.wf(),
        ensures
            self.names().no_duplicates(),
            self.names().len() == self.defs().len(),
    {
    }

    /// The names are those of the definitions, in order.
    pub proof fn lemma_names_are_def_names(&self)
        requires
            self.wf(),
        ensures
            self.names() == self.defs().map_values(|d: StructDef| d.name@),
    {
        assert(self.names() =~= self.defs().map_values(|d: StructDef| d.name@));
    }

    /// An empty table.
    pub fn new() -> (t: StructTable)
        ensures
            t.wf(),
            t.names().len() == 0,
            t.defs().len() == 0,
    {
        StructTable { names: Vec::new(), struct_defs: Vec::new() }
    }

    /// Adds a struct under a new id; a name already in the table is refused
    /// with `DuplicateDef`.
    pub fn insert(&mut self, def: StructDef) -> (r: Result<StructId, SemanticError>)
        requires
            old(self).wf(),
        ensures
            final(self).wf(),
            old(self).names().contains(def.name@) ==> r is Err && final(self).names() == old(
                self,
            ).names() && final(self).defs() == old(self).defs(),
            !old(self).names().contains(def.name@) ==> r == Ok::<StructId, SemanticError>(
                StructId(old(self).names().len() as u64),
            ) && final(self).names() == old(self).names().push(def.name@) && final(self).defs()
                == old(self).defs().push(def),
    {
        if let Some(i) = find_name(&self.names, def.name.as_str()) {
            assert(self.names()[i as int] == def.name@);
            return Err(SemanticError::DuplicateDef { name: def.name.clone() });
        }
        assert(!self.names().contains(def.name@));
        let id = StructId(self.struct_defs.len() as u64);
        self.names.push(def.name.clone());
        self.struct_defs.push(def);
        assert(self.names() =~= old(self).names().push(def.name@));
        Ok(id)
    }

    /// The struct with an id.
    pub fn get(&self, id: StructId) -> (r: Option<&StructDef>)
        ensures
            id.0 < self.defs().len() ==> r == Some(&self.defs()[id.0 as int]),
            id.0 >= self.defs().len() ==> r is None,
    {
        if (id.0 as usize) < self.struct_defs.len() && id.0 <= usize::MAX as u64 {
            Some(&self.struct_defs[id.0 as usize])
        } else {
            None
        }
    }

    /// The id of a struct.
    pub fn id(&self, name: &str) -> (r: Option<StructId>)
        requires
            self.wf(),
        ensures
            match first_index(self.names(), name@) {
                Some(i) => r == Some(StructId(i as u64)),
                None => r is None,
            },
    {
        match find_name(&self.names, name) {
            Some(i) => {
                proof {
                    let j = choose|j: int| 0 <= j < self.names().len() && self.names()[j] == name@
                        && forall|k: int| 0 <= k < j ==> self.names()[k] != name@;
                    assert(self.names()[i as int] == name@);
                    if j < i {
                        assert(self.names@[j]@ == self.names()[j]);
                    }
                }
                Some(StructId(i as u64))
            },
            None => {
                proof {
                    assert forall|i: int| 0 <= i < self.names().len() implies self.names()[i] != name@ by {
                        assert(self.names@[i]@ == self.names()[i]);
                    }
                }
                None
            },
        }
    }

    /// The struct with a name.
    pub fn get_by_name(&self, name: &str) -> (r: Option<&StructDef>)
        requires
            self.wf(),
        ensures
            match first_index(self.names(), name@) {
                Some(i) => r == Some(&self.defs()[i]),
                None => r is None,
            },
    {
        match self.id(name) {
            Some(id) => {
                let n = self.struct_defs.len();
                proof {
                    let i = first_index(self.names(), name@)->0;
                    assert(0 <= i < self.names().len());
                    assert(self.names().len() == self.struct_defs@.len());
                    assert(self.struct_defs@.len() == n);
                    assert(id.0 == i);
                }
                self.get(id)
            },
            None => None,
        }
    }

    /// Replaces the fields of the struct with a name; false where there is
    /// no such struct.
    pub fn set_fields(&mut self, name: &str, fields: Vec<crate::type_ast::Field>) -> (ok: bool)
        requires
            old(self).wf(),
        ensures
            final(self).wf(),
            final(self).names() == old(self).names(),
            final(self).defs().len() == old(self).defs().len(),
            ok == (first_index(old(self).names(), name@) is Some),
            match first_index(old(self).names(), name@) {
                Some(i) => final(self).defs() == old(self).defs().update(
                    i,
                    StructDef { name: old(self).defs()[i].name, fields },
                ),
                None => final(self).defs() == old(self).defs(),
            },
    {
        match self.id(name) {
            Some(id) => {
                let n = self.struct_defs.len();
                proof {
                    let i = first_index(self.names(), name@)->0;
                    assert(self.struct_defs@.len() == n);
                }
                let i = id.0 as usize;
                let ghost before = self.struct_defs@;
                let mut d = self.struct_defs.remove(i);
                d.fields = fields;
                self.struct_defs.insert(i, d);
                proof {
                    assert(self.struct_defs@ =~= before.update(i as int, d));
                    assert(self.names() =~= old(self).names());
                }
                true
            },
            None => false,
        }
    }

}

/// The functions of a program, by name and by id; ids count up from 0 in
/// the order of insertion.
pub struct FunctionTable {
    names: Vec<String>,
    function_defs: Vec<FunctionDef>,
}

impl FunctionTable {
    /// The names, by id.
    pub closed spec fn names(&self) -> Seq<Seq<char>> {
        self.names@.map_values(|s: String| s@)
    }

    /// The definitions, by id.
    pub closed spec fn defs(&self) -> Seq<FunctionDef> {
        self.function_defs@
    }

    /// There is a definition for every name.
    pub closed spec fn wf(&self) -> bool {
        self.names@.len() == self.function_defs@.len()
    }

    /// An empty table.
    pub fn new() -> (t: FunctionTable)
        ensures
            t.wf(),
            t.names().len() == 0,
            t.defs().len() == 0,
    {
        let t = FunctionTable { names: Vec::new(), function_defs: Vec::new() };
        assert(t.names() =~= Seq::<Seq<char>>::empty());
        t
    }

    /// Adds a function under a new id; a name already in the table is
    /// refused with `DuplicateDef`.
    pub fn insert(&mut self, def: FunctionDef) -> (r: Result<FunctionId, SemanticError>)
        requires
            old(self).wf(),
        ensures
            final(self).wf(),
            old(self).names().contains(def.name@) ==> (r matches Err(SemanticError::DuplicateDef { name })
                && name@ == def.name@) && final(self).names() == old(self).names() && final(self).defs()
                == old(self).defs(),
            !old(self).names().contains(def.name@) ==> r == Ok::<FunctionId, SemanticError>(
                FunctionId(old(self).names().len() as u64),
            ) && final(self).names() == old(self).names().push(def.name@) && final(self).defs()
                == old(self).defs().push(def),
    {
        if let Some(i) = find_name(&self.names, def.name.as_str()) {
            assert(self.names()[i as int] == def.name@);
            return Err(SemanticError::DuplicateDef { name: def.name.clone() });
        }
        assert(!self.names().contains(def.name@));
        let id = FunctionId(self.function_defs.len() as u64);
        self.names.push(def.name.clone());
        self.function_defs.push(def);
        assert(self.names() =~= old(self).names().push(def.name@));
        Ok(id)
    }

    /// The function with an id.
    pub fn get(&self, id: FunctionId) -> (r: Option<&FunctionDef>)
        ensures
            id.0 < self.defs().len() ==> r == Some(&self.defs()[id.0 as int]),
            id.0 >= self.defs().len() ==> r is None,
    {
        if (id.0 as usize) < self.function_defs.len() && id.0 <= usize::MAX as u64 {
            Some(&self.function_defs[id.0 as usize])
        } else {
            None
        }
    }

    /// The function with an id, to change it in place.
    pub fn get_mut(&mut self, id: FunctionId) -> (r: Option<&mut FunctionDef>)
        requires
            old(self).wf(),
        ensures
            final(self).wf(),
            final(self).names() == old(self).names(),
            id.0 < old(self).defs().len() ==> (r matches Some(d) && *d == old(self).defs()[id.0 as int]
                && final(self).defs() == old(self).defs().update(id.0 as int, *final(d))),
            id.0 >= old(self).defs().len() ==> r is None && final(self).defs() == old(self).defs(),
    {
        if (id.0 as usize) < self.function_defs.len() && id.0 <= usize::MAX as u64 {
            Some(&mut self.function_defs[id.0 as usize])
        } else {
            None
        }
    }

    /// The id of a function.
    pub fn id(&self, name: &str) -> (r: Option<FunctionId>)
        requires
            self.wf(),
        ensures
            match first_index(self.names(), name@) {
                Some(i) => r == Some(FunctionId(i as u64)),
                None => r is None,
            },
    {
        match find_name(&self.names, name) {
            Some(i) => {
                proof {
                    let j = choose|j: int| 0 <= j < self.names().len() && self.names()[j] == name@
                        && forall|k: int| 0 <= k < j ==> self.names()[k] != name@;
                    assert(self.names()[i as int] == name@);
                    if j < i {
                        assert(self.names@[j]@ == self.names()[j]);
                    }
                }
                Some(FunctionId(i as u64))
            },
            None => {
                proof {
                    assert forall|i: int| 0 <= i < self.names().len() implies self.names()[i] != name@ by {
                        assert(self.names@[i]@ == self.names()[i]);
                    }
                }
                None
            },
        }
    }

    /// The function with a name.
    pub fn get_by_name(&self, name: &str) -> (r: Option<&FunctionDef>)
        requires
            self.wf(),
        ensures
            match first_index(self.names(), name@) {
                Some(i) => r == Some(&self.defs()[i]),
                None => r is None,
            },
    {
        match self.id(name) {
            Some(id) => {
                let n = self.function_defs.len();
                proof {
                    let i = first_index(self.names(), name@)->0;
                    assert(0 <= i < self.names().len());
                    assert(self.names().len() == self.function_defs@.len());
                    assert(self.function_defs@.len() == n);
                    assert(id.0 == i);
                }
                self.get(id)
            },
            None => None,
        }
    }

    /// The function with a name, to change it in place.
    pub fn get_by_name_mut(&mut self, name: &str) -> (r: Option<&mut FunctionDef>)
        requires
            old(self).wf(),
        ensures
            final(self).wf(),
            final(self).names() == old(self).names(),
            match first_index(old(self).names(), name@) {
                Some(i) => r matches Some(d) && *d == old(self).defs()[i] && final(self).defs() == old(
                    self,
                ).defs().update(i, *final(d)),
                None => r is None && final(self).defs() == old(self).defs(),
            },
    {
        match self.id(name) {
            Some(id) => {
                let n = self.function_defs.len();
                proof {
                    let i = first_index(self.names(), name@)->0;
                    assert(0 <= i < self.names().len());
                    assert(self.names().len() == self.function_defs@.len());
                    assert(self.function_defs@.len() == n);
                    assert(id.0 == i);
                }
                self.get_mut(id)
            },
            None => None,
        }
    }
}

} // verus!
