use indexmap::IndexMap;
use vstd::prelude::*;

verus! {

/// A type by its index in the type table.
#[derive(Clone, Copy, PartialEq, Eq, Structural, Debug, Hash)]
pub struct TypeId(pub u64);

impl TypeId {
    /// The type `nil`.
    pub fn nil_type() -> (t: TypeId)
        ensures
            t == TypeId(0),
    {
        TypeId(0)
    }

    /// The type `bool`.
    pub fn bool_type() -> (t: TypeId)
        ensures
            t == TypeId(1),
    {
        TypeId(1)
    }

    /// The type `int`.
    pub fn int_type() -> (t: TypeId)
        ensures
            t == TypeId(2),
    {
        TypeId(2)
    }

    /// The type `float`.
    pub fn float_type() -> (t: TypeId)
        ensures
            t == TypeId(3),
    {
        TypeId(3)
    }

    /// The type `str`.
    pub fn string_type() -> (t: TypeId)
        ensures
            t == TypeId(4),
    {
        TypeId(4)
    }
}

/// A struct by its index in the struct table.
#[derive(Clone, Copy, PartialEq, Eq, Structural, Debug, Hash)]
pub struct StructId(pub u64);

/// A function by its index in the function table.
#[derive(Clone, Copy, PartialEq, Eq, Structural, Debug, Hash)]
pub struct FunctionId(pub u64);

} // verus!

verus! {

/// What a type is.
#[derive(PartialEq, Eq, Hash, Debug)]
pub enum TypeKind {
    Nil,
    Bool,
    Int,
    Float,
    String,
    Struct(StructId),
    Vec { element: TypeId },
    NativeFunction { args: Vec<TypeId>, return_ty: TypeId },
    Fn { args: Vec<TypeId>, return_ty: TypeId },
}

impl TypeKind {
    /// The parameter types and the return type of a function type.
    pub fn as_callable(&self) -> (r: Option<(&[TypeId], TypeId)>)
        ensures
            match self {
                TypeKind::NativeFunction { args, return_ty } => r matches Some(p) && p.0@ == args@
                    && p.1 == *return_ty,
                TypeKind::Fn { args, return_ty } => r matches Some(p) && p.0@ == args@ && p.1
                    == *return_ty,
                _ => r is None,
            },
    {
        match self {
            TypeKind::NativeFunction { args, return_ty } => Some((args.as_slice(), *return_ty)),
            TypeKind::Fn { args, return_ty } => Some((args.as_slice(), *return_ty)),
            _ => None,
        }
    }
}

/// What a type is, as a mathematical value.
pub enum TypeKindView {
    Nil,
    Bool,
    Int,
    Float,
    String,
    Struct(StructId),
    Vec { element: TypeId },
    NativeFunction { args: Seq<TypeId>, return_ty: TypeId },
    Fn { args: Seq<TypeId>, return_ty: TypeId },
}

impl View for TypeKind {
    type V = TypeKindView;

    open spec fn view(&self) -> TypeKindView {
        match self {
            TypeKind::Nil => TypeKindView::Nil,
            TypeKind::Bool => TypeKindView::Bool,
            TypeKind::Int => TypeKindView::Int,
            TypeKind::Float => TypeKindView::Float,
            TypeKind::String => TypeKindView::String,
            TypeKind::Struct(id) => TypeKindView::Struct(*id),
            TypeKind::Vec { element } => TypeKindView::Vec { element: *element },
            TypeKind::NativeFunction { args, return_ty } => TypeKindView::NativeFunction {
                args: args@,
                return_ty: *return_ty,
            },
            TypeKind::Fn { args, return_ty } => TypeKindView::Fn { args: args@, return_ty: *return_ty },
        }
    }
}

#[verifier::external_type_specification]
#[verifier::external_body]
#[verifier::reject_recursive_types(K)]
#[verifier::reject_recursive_types(V)]
#[verifier::reject_recursive_types(S)]
pub struct ExIndexMap<K, V, S>(IndexMap<K, V, S>);

/// The entries of a map from type kinds to ids, in insertion order.
pub uninterp spec fn type_entries(m: IndexMap<TypeKind, TypeId>) -> Seq<(TypeKindView, TypeId)>;

/// Calls `IndexMap::new`: a map with no entries.
#[verifier::external_body]
fn type_map_new() -> (m: IndexMap<TypeKind, TypeId>)
    ensures
        type_entries(m) == Seq::<(TypeKindView, TypeId)>::empty(),
{
    IndexMap::new()
}

/// Calls `IndexMap::len`, the number of entries.
#[verifier::external_body]
fn type_map_len(m: &IndexMap<TypeKind, TypeId>) -> (n: usize)
    ensures
        n == type_entries(*m).len(),
{
    m.len()
}

/// Calls `IndexMap::get` (keys compare by the derived equality of
/// `TypeKind`) and copies the value found: that of the entry whose key
/// equals `k`, if one does. The map's keys are distinct.
#[verifier::external_body]
fn type_map_get(m: &IndexMap<TypeKind, TypeId>, k: &TypeKind) -> (r: Option<TypeId>)
    ensures
        match r {
            Some(v) => exists|i: int|
                0 <= i < type_entries(*m).len() && type_entries(*m)[i] == (k@, v),
            None => forall|i: int| 0 <= i < type_entries(*m).len() ==> type_entries(*m)[i].0 != k@,
        },
{
    m.get(k).copied()
}

/// Calls `IndexMap::get_index` and keeps the key: the key of entry `i`, if
/// there is one.
#[verifier::external_body]
fn type_map_get_index(m: &IndexMap<TypeKind, TypeId>, i: usize) -> (r: Option<&TypeKind>)
    ensures
        i < type_entries(*m).len() ==> r is Some && r.unwrap()@ == type_entries(*m)[i as int].0,
        i >= type_entries(*m).len() ==> r is None,
{
    match m.get_index(i) {
        Some((k, _)) => Some(k),
        None => None,
    }
}

/// Calls `IndexMap::insert` with a key no entry has: the entry goes at the
/// end, and nothing is returned.
#[verifier::external_body]
fn type_map_insert_new(m: &mut IndexMap<TypeKind, TypeId>, k: TypeKind, v: TypeId)
    requires
        forall|i: int| 0 <= i < type_entries(*old(m)).len() ==> type_entries(*old(m))[i].0 != k@,
    ensures
        type_entries(*final(m)) == type_entries(*old(m)).push((k@, v)),
{
    m.insert(k, v);
}

/// The types of a program, each under the id that is its position.
pub struct TypeTable {
    kinds: IndexMap<TypeKind, TypeId>,
}

impl TypeTable {
    /// The type kinds, by id.
    pub closed spec fn kinds(&self) -> Seq<TypeKindView> {
        type_entries(self.kinds).map_values(|e: (TypeKindView, TypeId)| e.0)
    }

    /// No kind occurs twice, and each entry maps its kind to its position.
    pub closed spec fn wf(&self) -> bool {
        &&& self.kinds().no_duplicates()
        &&& forall|i: int|
            0 <= i < type_entries(self.kinds).len() ==> (#[trigger] type_entries(self.kinds)[i]).1
                == TypeId(i as u64)
    }

    /// A table of the five basic types, under ids 0 to 4.
    pub fn new() -> (t: TypeTable)
        ensures
            t.wf(),
            t.kinds() == seq![
                TypeKindView::Nil,
                TypeKindView::Bool,
                TypeKindView::Int,
                TypeKindView::Float,
                TypeKindView::String,
            ],
    {
        let mut pool = TypeTable { kinds: type_map_new() };
        assert(pool.kinds() =~= Seq::<TypeKindView>::empty());
        pool.intern(TypeKind::Nil);
        pool.intern(TypeKind::Bool);
        pool.intern(TypeKind::Int);
        pool.intern(TypeKind::Float);
        pool.intern(TypeKind::String);
        assert(pool.kinds() =~= seq![
            TypeKindView::Nil,
            TypeKindView::Bool,
            TypeKindView::Int,
            TypeKindView::Float,
            TypeKindView::String,
        ]);
        pool
    }

    /// The kind of a type.
    pub fn get(&self, id: TypeId) -> (r: Option<&TypeKind>)
        ensures
            id.0 < self.kinds().len() ==> r is Some && r.unwrap()@ == self.kinds()[id.0 as int],
            id.0 >= self.kinds().len() ==> r is None,
    {
        let n = type_map_len(&self.kinds);
        if id.0 < n as u64 {
            type_map_get_index(&self.kinds, id.0 as usize)
        } else {
            None
        }
    }

    /// The id of a kind, which is added to the table unless it is there.
    pub fn intern(&mut self, kind: TypeKind) -> (id: TypeId)
        requires
            old(self).wf(),
        ensures
            final(self).wf(),
            final(self).kinds() == (if old(self).kinds().contains(kind@) {
                old(self).kinds()
            } else {
                old(self).kinds().push(kind@)
            }),
            0 <= id.0 < final(self).kinds().len(),
            final(self).kinds()[id.0 as int] == kind@,
    {
        let ghost k = kind@;
        match type_map_get(&self.kinds, &kind) {
            Some(id) => {
                let n = type_map_len(&self.kinds);
                proof {
                    let i = choose|i: int|
                        0 <= i < type_entries(self.kinds).len() && type_entries(self.kinds)[i] == (k, id);
                    assert(self.kinds()[i] == k);
                    assert(type_entries(self.kinds)[i].1 == TypeId(i as u64));
                    assert(i < type_entries(self.kinds).len());
                    assert(id.0 == i);
                }
                id
            },
            None => {
                let n = type_map_len(&self.kinds);
                let id = TypeId(n as u64);
                proof {
                    assert forall|i: int| 0 <= i < self.kinds().len() implies self.kinds()[i] != k by {
                        assert(type_entries(self.kinds)[i].0 != k);
                    }
                }
                type_map_insert_new(&mut self.kinds, kind, id);
                proof {
                    assert(self.kinds() =~= old(self).kinds().push(k));
                    assert(self.kinds()[n as int] == k);
                }
                id
            },
        }
    }
}

/// The index of a type parameter of a generic function.
#[derive(Clone, Copy, PartialEq, Eq, Structural, Debug)]
pub struct GenericSlot(pub u64);

/// A parameter or return type of a generic function: a fixed type or a type
/// parameter.
#[derive(Clone, Copy, PartialEq, Eq, Structural, Debug)]
pub enum TypeSlot {
    Static(TypeId),
    Dyn(GenericSlot),
}

/// A generic (native) function: its parameters and return type.
pub struct GenericFn {
    pub args: Vec<TypeSlot>,
    pub return_ty: Option<TypeSlot>,
}

/// The type that type parameter `g` is bound to by `input`: the argument at
/// the first parameter that names `g`.
pub open spec fn bound_type(args: Seq<TypeSlot>, input: Seq<TypeId>, g: u64) -> Option<TypeId> {
    if exists|i: int| 0 <= i < args.len() && args[i] == TypeSlot::Dyn(GenericSlot(g)) {
        let i = choose|i: int| 0 <= i < args.len() && args[i] == TypeSlot::Dyn(GenericSlot(g));
        Some(input[i])
    } else {
        None
    }
}

/// The arguments fit the generic function: as many as its parameters, each
/// fixed parameter given its own type, each type parameter one type
/// wherever it occurs (and numbered below the count of parameters), and a
/// type parameter that is returned bound by some argument.
pub open spec fn fits(f_args: Seq<TypeSlot>, ret: Option<TypeSlot>, input: Seq<TypeId>) -> bool {
    &&& input.len() == f_args.len()
    &&& forall|i: int|
        0 <= i < f_args.len() ==> match #[trigger] f_args[i] {
            TypeSlot::Static(t) => input[i] == t,
            TypeSlot::Dyn(g) => g.0 < f_args.len(),
        }
    &&& forall|i: int, j: int|
        0 <= i < f_args.len() && 0 <= j < f_args.len() && f_args[i] is Dyn && #[trigger] f_args[i]
            == #[trigger] f_args[j] ==> input[i] == input[j]
    &&& ret matches Some(TypeSlot::Dyn(g)) ==> g.0 < f_args.len() && bound_type(
        f_args,
        input,
        g.0,
    ) is Some
}

/// The return type of a generic function called with arguments that fit.
pub open spec fn instance_return(f_args: Seq<TypeSlot>, ret: Option<TypeSlot>, input: Seq<TypeId>) -> TypeId {
    match ret {
        Some(TypeSlot::Static(t)) => t,
        Some(TypeSlot::Dyn(g)) => bound_type(f_args, input, g.0)->0,
        None => TypeId(0),
    }
}

/// Whether the arguments fit a generic function, as `fits` says.
pub fn fits_exec(f_args: &Vec<TypeSlot>, ret: Option<TypeSlot>, input: &[TypeId]) -> (b: bool)
    ensures
        b == fits(f_args@, ret, input@),
{
    let n = f_args.len();
    if input.len() != n {
        return false;
    }
    let mut i: usize = 0;
    while i < n
        invariant
            n == f_args@.len(),
            n == input@.len(),
            i <= n,
            forall|a: int|
                0 <= a < i ==> match #[trigger] f_args@[a] {
                    TypeSlot::Static(t) => input@[a] == t,
                    TypeSlot::Dyn(g) => g.0 < n,
                },
            forall|a: int, c: int|
                0 <= a < i && 0 <= c < n && f_args@[a] is Dyn && #[trigger] f_args@[a]
                    == #[trigger] f_args@[c] ==> input@[a] == input@[c],
        decreases n - i,
    {
        match f_args[i] {
            TypeSlot::Static(t) => {
                if input[i] != t {
                    return false;
                }
            },
            TypeSlot::Dyn(g) => {
                if g.0 >= n as u64 {
                    return false;
                }
                let mut j: usize = 0;
                while j < n
                    invariant
                        n == f_args@.len(),
                        n == input@.len(),
                        i < n,
                        j <= n,
                        f_args@[i as int] == TypeSlot::Dyn(g),
                        forall|c: int| 0 <= c < j && f_args@[c] == TypeSlot::Dyn(g) ==> input@[i as int] == input@[c],
                    decreases n - j,
                {
                    if f_args[j] == TypeSlot::Dyn(g) && input[j] != input[i] {
                        return false;
                    }
                    j = j + 1;
                }
            },
        }
        i = i + 1;
    }
    match ret {
        Some(TypeSlot::Dyn(g)) => {
            if g.0 >= n as u64 {
                return false;
            }
            let mut k: usize = 0;
            while k < n
                invariant
                    n == f_args@.len(),
                    n == input@.len(),
                    g.0 < n,
                    ret == Some(TypeSlot::Dyn(g)),
                    k <= n,
                    forall|c: int| 0 <= c < k ==> f_args@[c] != TypeSlot::Dyn(GenericSlot(g.0)),
                    forall|a: int|
                        0 <= a < n ==> match #[trigger] f_args@[a] {
                            TypeSlot::Static(t) => input@[a] == t,
                            TypeSlot::Dyn(g) => g.0 < n,
                        },
                    forall|a: int, c: int|
                        0 <= a < n && 0 <= c < n && f_args@[a] is Dyn && #[trigger] f_args@[a]
                            == #[trigger] f_args@[c] ==> input@[a] == input@[c],
                decreases n - k,
            {
                if f_args[k] == TypeSlot::Dyn(GenericSlot(g.0)) {
                    assert(f_args@[k as int] == TypeSlot::Dyn(GenericSlot(g.0)));
                    return true;
                }
                k = k + 1;
            }
            false
        },
        _ => true,
    }
}

impl GenericFn {
    /// The native function type of this generic function at the given
    /// argument types: the arguments as parameters, and the return type
    /// with its type parameter replaced.
    pub fn monomorphization(&self, input_args: &[TypeId]) -> (r: Result<
        TypeKind,
        crate::semantic::SemanticError,
    >)
        requires
            fits(self.args@, self.return_ty, input_args@),
        ensures
            r matches Ok(TypeKind::NativeFunction { args, return_ty }) && args@ == input_args@
                && return_ty == instance_return(self.args@, self.return_ty, input_args@),
    {
        let n = self.args.len();
        let mut args: Vec<TypeId> = Vec::new();
        let mut bounds: Vec<Option<TypeId>> = Vec::new();
        let mut k: usize = 0;
        while k < n
            invariant
                k <= n,
                n == self.args@.len(),
                bounds@.len() == k,
                forall|j: int| 0 <= j < k ==> bounds@[j] is None,
            decreases n - k,
        {
            bounds.push(None);
            k = k + 1;
        }
        let mut idx: usize = 0;
        while idx < n
            invariant
                n == self.args@.len(),
                fits(self.args@, self.return_ty, input_args@),
                idx <= n,
                bounds@.len() == n,
                args@ == input_args@.take(idx as int),
                forall|g: int|
                    0 <= g < n ==> #[trigger] bounds@[g] == (if exists|i: int|
                        0 <= i < idx && self.args@[i] == TypeSlot::Dyn(GenericSlot(g as u64)) {
                        Some(
                            input_args@[choose|i: int|
                                0 <= i < idx && self.args@[i] == TypeSlot::Dyn(
                                    GenericSlot(g as u64),
                                )],
                        )
                    } else {
                        None
                    }),
            decreases n - idx,
        {
            let arg = self.args[idx];
            let input = input_args[idx];
            match arg {
                TypeSlot::Static(_) => {},
                TypeSlot::Dyn(generic_type) => {
                    let g = generic_type.0 as usize;
                    assert(self.args@[idx as int] == arg);
                    if bounds[g].is_none() {
                        bounds.set(g, Some(input));
                    }
                },
            }
            args.push(input);
            proof {
                assert(args@ == input_args@.take(idx + 1));
                assert forall|g: int| 0 <= g < n implies #[trigger] bounds@[g] == (if exists|i: int|
                    0 <= i < idx + 1 && self.args@[i] == TypeSlot::Dyn(GenericSlot(g as u64)) {
                    Some(
                        input_args@[choose|i: int|
                            0 <= i < idx + 1 && self.args@[i] == TypeSlot::Dyn(
                                GenericSlot(g as u64),
                            )],
                    )
                } else {
                    None
                }) by {
                    if exists|i: int| 0 <= i < idx && self.args@[i] == TypeSlot::Dyn(GenericSlot(g as u64)) {
                        let i0 = choose|i: int| 0 <= i < idx && self.args@[i] == TypeSlot::Dyn(GenericSlot(g as u64));
                        let i1 = choose|i: int| 0 <= i < idx + 1 && self.args@[i] == TypeSlot::Dyn(GenericSlot(g as u64));
                        assert(self.args@[i0] == self.args@[i1]);
                    } else if self.args@[idx as int] == TypeSlot::Dyn(GenericSlot(g as u64)) {
                        let i1 = choose|i: int| 0 <= i < idx + 1 && self.args@[i] == TypeSlot::Dyn(GenericSlot(g as u64));
                        assert(i1 == idx);
                    }
                }
            }
            idx = idx + 1;
        }
        assert(args@ == input_args@);
        let return_ty = match self.return_ty {
            Some(TypeSlot::Static(type_id)) => type_id,
            Some(TypeSlot::Dyn(generic_type)) => {
                let g = generic_type.0 as usize;
                proof {
                    let g0 = generic_type.0;
                    let i0 = choose|i: int| 0 <= i < n && self.args@[i] == TypeSlot::Dyn(GenericSlot(g0));
                    let i1 = choose|i: int| 0 <= i < self.args@.len() && self.args@[i] == TypeSlot::Dyn(GenericSlot(g0));
                    assert(self.args@[i0] == self.args@[i1]);
                    assert(bounds@[g as int] is Some);
                }
                bounds[g].unwrap()
            },
            None => TypeId(0),
        };
        Ok(TypeKind::NativeFunction { args, return_ty })
    }
}

/// A built-in generic type.
pub enum GenericType {
    Vec,
}

impl GenericType {
    /// The type this generic type gives for its parameters.
    pub fn monomorphization(&self, param: &[TypeId]) -> (r: Result<
        TypeKind,
        crate::semantic::SemanticError,
    >)
        requires
            param@.len() == 1,
        ensures
            r matches Ok(TypeKind::Vec { element }) && element == param@[0],
    {
        match self {
            GenericType::Vec => Ok(TypeKind::Vec { element: param[0] }),
        }
    }
}

} // verus!
