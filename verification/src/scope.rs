use crate::semantic::SemanticError;
use crate::text::{owned, str_eq};
use crate::ty::{GenericFn, TypeId};
use vstd::prelude::*;

verus! {

/// Where a variable lives: a local slot of its function, or a global slot.
#[derive(Clone, Copy, PartialEq, Eq, Structural, Debug)]
pub enum Location {
    Local(usize),
    Global(usize),
}

/// A name in a scope: a local variable with its type and slot, or a generic
/// function.
pub enum Indent {
    Local { name: String, ty: TypeId, idx: usize },
    GenericFn { name: String, f: GenericFn, idx: usize },
}

impl Indent {
    /// The type of a local variable; `None` for a generic function.
    pub fn ty(&self) -> (r: Option<TypeId>)
        ensures
            r == (match self {
                Indent::Local { ty, .. } => Some(*ty),
                _ => None,
            }),
    {
        match self {
            Indent::Local { ty, .. } => Some(*ty),
            _ => None,
        }
    }
}

/// What a symbol stands for: a value of a type, or a generic function whose
/// type is fixed at each call.
pub enum SymbolKind {
    Normal { type_id: TypeId },
    GenericFn { func: GenericFn },
}

/// A name with where it lives and what it stands for.
pub struct Symbol {
    pub name: String,
    pub location: Location,
    pub kind: SymbolKind,
}

impl Symbol {
    /// The type of a value symbol; `None` for a generic function.
    pub fn ty(&self) -> (r: Option<TypeId>)
        ensures
            r == (match self.kind {
                SymbolKind::Normal { type_id } => Some(type_id),
                _ => None,
            }),
    {
        match &self.kind {
            SymbolKind::Normal { type_id } => Some(*type_id),
            _ => None,
        }
    }
}

/// The symbol of a name in a list of symbols, if it has one.
pub open spec fn find_symbol(s: Seq<Symbol>, name: Seq<char>) -> Option<Symbol>
    decreases s.len(),
{
    if s.len() == 0 {
        None
    } else if s.last().name@ == name {
        Some(s.last())
    } else {
        find_symbol(s.drop_last(), name)
    }
}

/// The symbol a name stands for: that of the innermost scope that has it,
/// the global one last.
pub open spec fn resolve(scopes: Seq<Seq<Symbol>>, global: Seq<Symbol>, name: Seq<char>) -> Option<Symbol>
    decreases scopes.len(),
{
    if scopes.len() == 0 {
        find_symbol(global, name)
    } else {
        match find_symbol(scopes.last(), name) {
            Some(s) => Some(s),
            None => resolve(scopes.drop_last(), global, name),
        }
    }
}

/// The names in scope: the global symbols and nested scopes of locals. A
/// local gets the next free slot of its function and gives it back when
/// its scope ends; the types of the slots used are kept.
pub struct SymbolTable {
    global: Vec<Symbol>,
    locals: Vec<Vec<Symbol>>,
    next_local: usize,
    local_types: Vec<TypeId>,
}

/// Finds a name among symbols, the last first.
fn find_in(scope: &Vec<Symbol>, name: &str) -> (r: Option<usize>)
    ensures
        match r {
            Some(i) => i < scope@.len() && find_symbol(scope@, name@) == Some(scope@[i as int]),
            None => find_symbol(scope@, name@) is None,
        },
{
    let mut j: usize = scope.len();
    assert(scope@.take(j as int) =~= scope@);
    while j > 0
        invariant
            j <= scope@.len(),
            find_symbol(scope@, name@) == find_symbol(scope@.take(j as int), name@),
        decreases j,
    {
        proof {
            assert(scope@.take(j as int).drop_last() =~= scope@.take(j - 1));
        }
        if str_eq(scope[j - 1].name.as_str(), name) {
            return Some(j - 1);
        }
        j = j - 1;
    }
    None
}

impl SymbolTable {
    /// The global symbols.
    pub closed spec fn globals(&self) -> Seq<Symbol> {
        self.global@
    }

    /// The scopes of locals, the innermost last.
    pub closed spec fn scopes(&self) -> Seq<Seq<Symbol>> {
        self.locals@.map_values(|v: Vec<Symbol>| v@)
    }

    /// The next free local slot.
    pub closed spec fn next_slot(&self) -> int {
        self.next_local as int
    }

    /// The types of the local slots used so far.
    pub closed spec fn slot_types(&self) -> Seq<TypeId> {
        self.local_types@
    }

    /// The next free local slot fits a `usize`.
    pub proof fn lemma_next_slot_bound(&self)
        ensures
            0 <= self.next_slot() <= usize::MAX,
    {
    }

    /// The symbol a name stands for.
    pub open spec fn resolved(&self, name: Seq<char>) -> Option<Symbol> {
        resolve(self.scopes(), self.globals(), name)
    }

    /// The symbol a name has where names are added now: in the innermost
    /// scope, or outside any scope among the globals.
    pub open spec fn declared(&self, name: Seq<char>) -> Option<Symbol> {
        if self.scopes().len() > 0 {
            find_symbol(self.scopes().last(), name)
        } else {
            find_symbol(self.globals(), name)
        }
    }

    /// A name cannot be added: the innermost scope (outside any scope, the
    /// globals) has it already, or no local slot is left.
    pub open spec fn refuses(&self, name: Seq<char>) -> bool {
        ||| self.declared(name) is Some
        ||| self.scopes().len() > 0 && self.next_slot() >= usize::MAX
    }

    /// This table is `before` with a symbol of a name and kind added at
    /// `loc`: in the innermost scope at the next local slot (whose type is
    /// recorded where the slot is new), or outside any scope as the next
    /// global.
    pub open spec fn added(
        &self,
        before: &SymbolTable,
        name: Seq<char>,
        kind: SymbolKind,
        ty: TypeId,
        loc: Location,
    ) -> bool {
        let sym_is = |s: Symbol| s.name@ == name && s.location == loc && s.kind == kind;
        if before.scopes().len() > 0 {
            &&& loc == Location::Local(before.next_slot() as usize)
            &&& self.scopes().len() == before.scopes().len()
            &&& self.scopes().drop_last() == before.scopes().drop_last()
            &&& self.scopes().last().drop_last() == before.scopes().last()
            &&& self.scopes().last().len() > 0
            &&& sym_is(self.scopes().last().last())
            &&& self.globals() == before.globals()
            &&& self.next_slot() == before.next_slot() + 1
            &&& self.slot_types() == if before.next_slot() == before.slot_types().len() {
                before.slot_types().push(ty)
            } else {
                before.slot_types()
            }
        } else {
            &&& loc == Location::Global(before.globals().len() as usize)
            &&& self.globals().len() == before.globals().len() + 1
            &&& self.globals().drop_last() == before.globals()
            &&& sym_is(self.globals().last())
            &&& self.scopes() == before.scopes()
            &&& self.next_slot() == before.next_slot()
            &&& self.slot_types() == before.slot_types()
        }
    }

    /// After a symbol is added, its name is declared as that symbol, other
    /// names as before, and a declared name is the one it resolves to.
    pub proof fn lemma_added_declared(
        &self,
        before: &SymbolTable,
        name: Seq<char>,
        kind: SymbolKind,
        ty: TypeId,
        loc: Location,
        other: Seq<char>,
    )
        requires
            self.added(before, name, kind, ty, loc),
        ensures
            other != name ==> self.declared(other) == before.declared(other),
            self.declared(name) is Some,
            self.declared(name)->0.name@ == name && self.declared(name)->0.kind == kind,
            self.declared(name)->0.location == loc,
            self.declared(other) is Some ==> self.resolved(other) == self.declared(other),
    {
        if before.scopes().len() > 0 {
            assert(self.scopes().last() =~= before.scopes().last().push(self.scopes().last().last()));
        } else {
            assert(self.globals() =~= before.globals().push(self.globals().last()));
        }
    }

    /// No names, no scopes.
    pub fn new() -> (t: SymbolTable)
        ensures
            t.globals().len() == 0,
            t.scopes().len() == 0,
            t.next_slot() == 0,
            t.slot_types().len() == 0,
    {
        SymbolTable { global: Vec::new(), locals: Vec::new(), next_local: 0, local_types: Vec::new() }
    }

    /// Opens a new innermost scope.
    pub fn enter_scope(&mut self)
        ensures
            final(self).scopes() == old(self).scopes().push(Seq::empty()),
            final(self).globals() == old(self).globals(),
            final(self).next_slot() == old(self).next_slot(),
            final(self).slot_types() == old(self).slot_types(),
    {
        self.locals.push(Vec::new());
        assert(self.scopes() =~= old(self).scopes().push(Seq::empty()));
    }

    /// Closes the innermost scope; its slots are free again.
    pub fn exit_scope(&mut self)
        ensures
            final(self).globals() == old(self).globals(),
            final(self).slot_types() == old(self).slot_types(),
            old(self).scopes().len() > 0 ==> final(self).scopes() == old(self).scopes().drop_last()
                && final(self).next_slot() == if old(self).next_slot() >= old(self).scopes().last().len() {
                    old(self).next_slot() - old(self).scopes().last().len()
                } else {
                    0
                },
            old(self).scopes().len() == 0 ==> final(self).scopes() == old(self).scopes()
                && final(self).next_slot() == old(self).next_slot(),
    {
        let ghost before = self.scopes();
        match self.locals.pop() {
            Some(local) => {
                self.next_local = if self.next_local >= local.len() {
                    self.next_local - local.len()
                } else {
                    0
                };
                assert(self.scopes() =~= before.drop_last());
            },
            None => {},
        }
    }

    /// The symbol a name stands for, in the innermost scope that has it.
    pub fn lookup(&self, name: &str) -> (r: Option<&Symbol>)
        ensures
            match r {
                Some(s) => self.resolved(name@) == Some(*s),
                None => self.resolved(name@) is None,
            },
    {
        let mut k: usize = self.locals.len();
        proof {
            assert(self.scopes().take(k as int) =~= self.scopes());
        }
        while k > 0
            invariant
                k <= self.locals@.len(),
                self.resolved(name@) == resolve(self.scopes().take(k as int), self.globals(), name@),
            decreases k,
        {
            proof {
                assert(self.scopes().take(k as int).drop_last() =~= self.scopes().take(k - 1));
                assert(self.scopes().take(k as int).last() == self.locals@[k - 1]@);
            }
            match find_in(&self.locals[k - 1], name) {
                Some(i) => return Some(&self.locals[k - 1][i]),
                None => {},
            }
            k = k - 1;
        }
        match find_in(&self.global, name) {
            Some(i) => Some(&self.global[i]),
            None => None,
        }
    }

    /// Adds a symbol to the innermost scope (a new local slot) or, outside
    /// any scope, to the globals (the next global slot); a name the scope
    /// has already is refused.
    fn add(&mut self, name: &str, kind: SymbolKind, ty: TypeId) -> (r: Result<Location, SemanticError>)
        ensures
            r is Err <==> old(self).refuses(name@),
            r is Err ==> *final(self) == *old(self),
            r matches Ok(loc) ==> final(self).added(old(self), name@, kind, ty, loc),
            final(self).scopes().len() == old(self).scopes().len(),
            r matches Ok(Location::Local(i)) ==> old(self).scopes().len() > 0 && i == old(self).next_slot(),
            r matches Ok(Location::Global(i)) ==> old(self).scopes().len() == 0 && i == old(self).globals().len(),
            r is Ok ==> final(self).resolved(name@) is Some,
            r is Err ==> final(self).scopes() == old(self).scopes() && final(self).globals() == old(self).globals(),
    {
        let n = self.locals.len();
        if n > 0 {
            if find_in(&self.locals[n - 1], name).is_some() {
                return Err(SemanticError::DuplicateDef { name: owned(name) });
            }
            if self.next_local == usize::MAX {
                return Err(SemanticError::DuplicateDef { name: owned(name) });
            }
            let loc = self.next_local;
            self.next_local = self.next_local + 1;
            if loc == self.local_types.len() {
                self.local_types.push(ty);
            }
            let symbol = Symbol { name: owned(name), location: Location::Local(loc), kind };
            let ghost before = self.scopes();
            let ghost sym = symbol;
            let mut scope = self.locals.remove(n - 1);
            scope.push(symbol);
            self.locals.push(scope);
            proof {
                assert(self.scopes() =~= before.drop_last().push(before.last().push(sym)));
                assert(before.last().push(sym).drop_last() =~= before.last());
                assert(find_symbol(self.scopes().last(), name@) == Some(sym));
                assert(sym.name@ == name@);
                assert(self.scopes().last().last() == sym);
                assert(self.scopes().drop_last() == before.drop_last());
                assert(self.globals() == old(self).globals());
                assert(self.next_slot() == old(self).next_slot() + 1);
            }
            Ok(Location::Local(loc))
        } else {
            if find_in(&self.global, name).is_some() {
                return Err(SemanticError::DuplicateDef { name: owned(name) });
            }
            let loc = self.global.len();
            let symbol = Symbol { name: owned(name), location: Location::Global(loc), kind };
            let ghost sym = symbol;
            self.global.push(symbol);
            proof {
                assert(self.global@.drop_last() =~= old(self).global@);
                assert(find_symbol(self.globals(), name@) == Some(sym));
            }
            Ok(Location::Global(loc))
        }
    }

    /// Adds a value of a type under a name.
    pub fn insert(&mut self, name: &str, type_id: TypeId) -> (r: Result<Location, SemanticError>)
        ensures
            r is Err <==> old(self).refuses(name@),
            r is Err ==> *final(self) == *old(self),
            r matches Ok(loc) ==> final(self).added(old(self), name@, SymbolKind::Normal { type_id }, type_id, loc),
            final(self).scopes().len() == old(self).scopes().len(),
            r matches Ok(Location::Local(i)) ==> old(self).scopes().len() > 0 && i == old(self).next_slot(),
            r matches Ok(Location::Global(i)) ==> old(self).scopes().len() == 0 && i == old(self).globals().len(),
            r is Ok ==> final(self).resolved(name@) is Some,
    {
        self.add(name, SymbolKind::Normal { type_id }, type_id)
    }

    /// Adds a generic function under a name.
    pub fn insert_generic_fn(&mut self, name: &str, func: GenericFn) -> (r: Result<Location, SemanticError>)
        ensures
            r is Err <==> old(self).refuses(name@),
            r is Err ==> *final(self) == *old(self),
            r matches Ok(loc) ==> final(self).added(old(self), name@, SymbolKind::GenericFn { func }, TypeId(0), loc),
            final(self).scopes().len() == old(self).scopes().len(),
            r matches Ok(Location::Global(i)) ==> old(self).scopes().len() == 0 && i == old(self).globals().len(),
            r is Ok ==> final(self).resolved(name@) is Some,
    {
        self.add(name, SymbolKind::GenericFn { func }, TypeId(0))
    }

    /// The number of global slots.
    pub fn global_count(&self) -> (n: usize)
        ensures
            n == self.globals().len(),
    {
        self.global.len()
    }

    /// The types of the local slots used since the last call, which are
    /// forgotten.
    pub fn take_local_types(&mut self) -> (v: Vec<TypeId>)
        ensures
            v@ == old(self).slot_types(),
            final(self).slot_types().len() == 0,
            final(self).scopes() == old(self).scopes(),
            final(self).globals() == old(self).globals(),
            final(self).next_slot() == old(self).next_slot(),
    {
        let mut v: Vec<TypeId> = Vec::new();
        std::mem::swap(&mut v, &mut self.local_types);
        v
    }
}

} // verus!
