use crate::ast;
use crate::ast::{BinaryOp, UnaryOp};
use crate::scope::{Location, Symbol, SymbolKind, SymbolTable};
use crate::tables::{FunctionTable, StructTable, first_index};
use crate::text::{owned, str_eq};
use crate::token::Literal;
use crate::ty::{GenericFn, GenericSlot, StructId, TypeId, TypeKind, TypeKindView, TypeSlot, TypeTable, fits_exec};
use crate::type_ast;
use vstd::prelude::*;

verus! {

/// The errors of the type analysis.
#[derive(Debug)]
pub enum SemanticError {
    TypeMistmatch,
    DuplicateDef { name: String },
    UndefinedIdent { name: String },
    CanNotAssignTo { target: String },
    UnknownType { name: String },
    UnsupportBinaryOp { op: BinaryOp, left: TypeKind, right: TypeKind },
    UnsupportUnaryOp { op: UnaryOp, ty: TypeKind },
    MemberAssign,
    MissStructField { struct_name: String, field_name: String },
    UnknownField { struct_name: String, field_name: String },
    MissingEntryPoint,
    NonBooleanCondition,
    NonBooleanAnd,
    NonBooleanOr,
    InvalidBreak,
    InvalidContinue,
    DuplicateFieldInit { struct_name: String, field_name: String },
    MissFieldInit { struct_name: String, field_name: String },
    MissFunc { name: String },
    EmptyTypeSegments,
    IndexTypeMismatch,
    /// A construct the analysis does not handle yet.
    Unsupported,
}

/// The type of a literal: nil, bool, int, float or str (ids 0 to 4).
pub open spec fn literal_type(l: Literal) -> TypeId {
    match l {
        Literal::Nil => TypeId(0),
        Literal::Bool(_) => TypeId(1),
        Literal::Int(_) => TypeId(2),
        Literal::Float(_) => TypeId(3),
        Literal::String(_) => TypeId(4),
    }
}

/// The type of a binary operation on operands of type `t`: `bool` for the
/// comparisons and the logical operations, `t` for the others.
pub open spec fn binary_type(op: BinaryOp, t: TypeId) -> TypeId {
    match op {
        BinaryOp::Equal | BinaryOp::NotEqual | BinaryOp::Less | BinaryOp::LessEqual
        | BinaryOp::Greater | BinaryOp::GreaterEqual | BinaryOp::And | BinaryOp::Or => TypeId(1),
        _ => t,
    }
}

/// The operator compares its operands: `==`, `!=`, `<`, `<=`, `>` or `>=`.
pub open spec fn is_comparison(op: BinaryOp) -> bool {
    ||| op == BinaryOp::Equal
    ||| op == BinaryOp::NotEqual
    ||| op == BinaryOp::Less
    ||| op == BinaryOp::LessEqual
    ||| op == BinaryOp::Greater
    ||| op == BinaryOp::GreaterEqual
}

/// `new` keeps every kind of `old` under its id, and may add more.
pub open spec fn extends(old: Seq<TypeKindView>, new: Seq<TypeKindView>) -> bool {
    &&& old.len() <= new.len()
    &&& forall|i: int| 0 <= i < old.len() ==> new[i] == old[i]
}

/// The kind a basic type name stands for: `nil`, `bool`, `int`, `float`
/// and `str`.
pub open spec fn basic_kind(name: Seq<char>) -> Option<TypeKindView> {
    if name == seq!['n', 'i', 'l'] {
        Some(TypeKindView::Nil)
    } else if name == seq!['b', 'o', 'o', 'l'] {
        Some(TypeKindView::Bool)
    } else if name == seq!['i', 'n', 't'] {
        Some(TypeKindView::Int)
    } else if name == seq!['f', 'l', 'o', 'a', 't'] {
        Some(TypeKindView::Float)
    } else if name == seq!['s', 't', 'r'] {
        Some(TypeKindView::String)
    } else {
        None
    }
}

/// The name of the vector type.
pub open spec fn vec_name() -> Seq<char> {
    seq!['V', 'e', 'c']
}

/// A written type names a type, given the names of the structs: it is one
/// segment, `Vec` with one type argument that names a type, or a basic
/// type or struct name without arguments.
pub open spec fn typeable(structs: Seq<Seq<char>>, ty: ast::Type) -> bool
    decreases ty,
{
    ty.segments@.len() == 1 && {
        let seg = ty.segments@[0];
        if seg.ident@ == vec_name() {
            seg.args@.len() == 1 && typeable(structs, seg.args@[0])
        } else {
            seg.args@.len() == 0 && (basic_kind(seg.ident@) is Some || first_index(structs, seg.ident@) is Some)
        }
    }
}

/// A written type denotes the type `t` of a table: `Vec<T>` a vector of
/// what `T` denotes, a basic name its basic kind, another name the struct
/// of that name.
pub open spec fn denotes(kinds: Seq<TypeKindView>, structs: Seq<Seq<char>>, ty: ast::Type, t: TypeId) -> bool
    decreases ty,
{
    0 <= t.0 < kinds.len() && ty.segments@.len() == 1 && {
        let seg = ty.segments@[0];
        if seg.ident@ == vec_name() {
            seg.args@.len() == 1 && match kinds[t.0 as int] {
                TypeKindView::Vec { element } => denotes(kinds, structs, seg.args@[0], element),
                _ => false,
            }
        } else {
            seg.args@.len() == 0 && match basic_kind(seg.ident@) {
                Some(k) => kinds[t.0 as int] == k,
                None => match first_index(structs, seg.ident@) {
                    Some(i) => kinds[t.0 as int] == TypeKindView::Struct(StructId(i as u64)),
                    None => false,
                },
            }
        }
    }
}

/// What a written type denotes in a table it still denotes in any
/// extension of the table.
pub proof fn lemma_denotes_extends(
    kinds: Seq<TypeKindView>,
    more: Seq<TypeKindView>,
    structs: Seq<Seq<char>>,
    ty: ast::Type,
    t: TypeId,
)
    requires
        extends(kinds, more),
        denotes(kinds, structs, ty, t),
    ensures
        denotes(more, structs, ty, t),
    decreases ty,
{
    let seg = ty.segments@[0];
    if seg.ident@ == vec_name() {
        assert(decreases_to!(ty => seg.args@[0]));
        if let TypeKindView::Vec { element } = kinds[t.0 as int] {
            lemma_denotes_extends(kinds, more, structs, seg.args@[0], element);
        }
    }
}

/// A function definition is declared in a state: where names are added
/// now, its name stands for a value of a function type whose parameter and
/// return types are those written (nil where none is written).
#[verifier::opaque]
pub open spec fn fn_declared(sem: Semantic, f: ast::FunctionDef) -> bool {
    let kinds = sem.kinds();
    let structs = sem.struct_table.names();
    match sem.symbol_table.declared(f.name@) {
        Some(sym) => match sym.kind {
            SymbolKind::Normal { type_id } => 0 <= type_id.0 < kinds.len() && match kinds[type_id.0 as int] {
                TypeKindView::Fn { args, return_ty } => {
                    &&& args.len() == f.args@.len()
                    &&& forall|k: int|
                        0 <= k < args.len() ==> denotes(kinds, structs, (#[trigger] f.args@[k]).type_, args[k])
                    &&& match f.return_type {
                        Some(t) => denotes(kinds, structs, t, return_ty),
                        None => return_ty == TypeId(0),
                    }
                },
                _ => false,
            },
            _ => false,
        },
        None => false,
    }
}

/// A declared function stays declared while the kinds only grow, the
/// structs stay and its name keeps its symbol.
pub proof fn lemma_fn_declared_kept(before: Semantic, after: Semantic, f: ast::FunctionDef)
    requires
        fn_declared(before, f),
        extends(before.kinds(), after.kinds()),
        after.struct_table.names() == before.struct_table.names(),
        after.symbol_table.declared(f.name@) == before.symbol_table.declared(f.name@),
    ensures
        fn_declared(after, f),
{
    reveal(fn_declared);
    let structs = before.struct_table.names();
    let sym = before.symbol_table.declared(f.name@)->0;
    if let SymbolKind::Normal { type_id } = sym.kind {
        if let TypeKindView::Fn { args, return_ty } = before.kinds()[type_id.0 as int] {
            assert forall|k: int| 0 <= k < args.len() implies denotes(
                after.kinds(),
                structs,
                (#[trigger] f.args@[k]).type_,
                args[k],
            ) by {
                lemma_denotes_extends(before.kinds(), after.kinds(), structs, f.args@[k].type_, args[k]);
            }
            if let Some(t) = f.return_type {
                lemma_denotes_extends(before.kinds(), after.kinds(), structs, t, return_ty);
            }
        }
    }
}

/// The number of typed definitions a definition of a program gives: a
/// struct with functions or methods gives the struct and their impl.
pub open spec fn def_count(s: ast::Statement) -> int {
    match s {
        ast::Statement::StructDef(d) => if d.functions@.len() > 0 || d.methods@.len() > 0 {
            2
        } else {
            1
        },
        ast::Statement::FunctionDef(_) => 1,
    }
}

/// Where the typed definitions of the `k`-th definition of a program start.
pub open spec fn def_offset(stmts: Seq<ast::Statement>, k: int) -> int
    decreases k,
{
    if k <= 0 {
        0
    } else {
        def_offset(stmts, k - 1) + def_count(stmts[k - 1])
    }
}

/// The typed definitions of a definition come before those of any later
/// one.
pub proof fn lemma_def_offset_grows(stmts: Seq<ast::Statement>, k: int, i: int)
    requires
        0 <= k < i,
    ensures
        0 <= def_offset(stmts, k),
        def_offset(stmts, k) + def_count(stmts[k]) <= def_offset(stmts, i),
    decreases i - k,
{
    lemma_def_offset_nonneg(stmts, k);
    if k + 1 < i {
        lemma_def_offset_grows(stmts, k + 1, i);
    }
}

/// Typed definitions start at a position that is not negative.
proof fn lemma_def_offset_nonneg(stmts: Seq<ast::Statement>, k: int)
    ensures
        0 <= def_offset(stmts, k),
    decreases k,
{
    if k > 0 {
        lemma_def_offset_nonneg(stmts, k - 1);
    }
}

/// A typed function is the analysis of a function definition: the same
/// name, its parameters in order (after `self` for a method), a return
/// type exactly where one is written, and a body checked against its
/// block.
pub open spec fn func_matches(f: ast::FunctionDef, g: type_ast::FunctionDef, method: bool) -> bool {
    let off = if method {
        1int
    } else {
        0int
    };
    &&& g.name@ == f.name@
    &&& g.args@.len() == f.args@.len() + off
    &&& forall|k: int| 0 <= k < f.args@.len() ==> g.args@[k + off].name@ == (#[trigger] f.args@[k]).name@
    &&& (f.return_type is None <==> g.return_type is None)
    &&& block_checked(f.body, g.body, g.return_type)
    &&& (method ==> g.args@[0].name@ == seq!['s', 'e', 'l', 'f'])
}

/// A typed function of a type is the analysis of a function definition,
/// as a method or not.
pub open spec fn assoc_matches(f: ast::FunctionDef, a: type_ast::AssociatedFunction, method: bool) -> bool {
    match a {
        type_ast::AssociatedFunction::Function(g) => !method && func_matches(f, g, false),
        type_ast::AssociatedFunction::Method(g) => method && func_matches(f, g, true),
    }
}

/// The typed functions of a struct are its functions, then its methods.
pub open spec fn impl_matches(d: ast::StructDef, fs: Seq<type_ast::AssociatedFunction>) -> bool {
    let nf = d.functions@.len() as int;
    &&& fs.len() == nf + d.methods@.len()
    &&& forall|k: int| 0 <= k < nf ==> assoc_matches(d.functions@[k], #[trigger] fs[k], false)
    &&& forall|k: int| 0 <= k < d.methods@.len() ==> assoc_matches(#[trigger] d.methods@[k], fs[nf + k], true)
}

/// The typed definitions from position `o` are those of a definition of a
/// program: a function, or a struct with the same fields followed, where
/// it has functions or methods, by their impl.
pub open spec fn defs_match(s: ast::Statement, defs: Seq<type_ast::Definition>, o: int) -> bool {
    match s {
        ast::Statement::FunctionDef(f) => defs[o] matches type_ast::Definition::FunctionDef(g) && func_matches(
            f,
            g,
            false,
        ),
        ast::Statement::StructDef(d) => {
            &&& defs[o] matches type_ast::Definition::StructDef(sd) && sd.name@ == d.name@ && field_names(sd)
                == ast_field_names(d)
            &&& (def_count(s) == 2 ==> (defs[o + 1] matches type_ast::Definition::ImplDef(imp) && impl_matches(
                d,
                imp.functions@,
            )))
        },
    }
}

/// The typed definitions of the first `i` definitions of a program stay
/// where more are appended after them.
pub proof fn lemma_defs_kept(
    stmts: Seq<ast::Statement>,
    before: Seq<type_ast::Definition>,
    after: Seq<type_ast::Definition>,
    i: int,
)
    requires
        0 <= i,
        before.len() == def_offset(stmts, i),
        after.len() >= before.len(),
        forall|j: int| 0 <= j < before.len() ==> #[trigger] after[j] == before[j],
        forall|k: int| 0 <= k < i ==> defs_match(#[trigger] stmts[k], before, def_offset(stmts, k)),
    ensures
        forall|k: int| 0 <= k < i ==> defs_match(#[trigger] stmts[k], after, def_offset(stmts, k)),
{
    assert forall|k: int| 0 <= k < i implies defs_match(#[trigger] stmts[k], after, def_offset(stmts, k)) by {
        lemma_def_offset_grows(stmts, k, i);
        let o = def_offset(stmts, k);
        assert(after[o] == before[o]);
        if def_count(stmts[k]) == 2 {
            assert(after[o + 1] == before[o + 1]);
        }
    }
}

/// The name of a typed function of a type.
pub open spec fn assoc_name(a: type_ast::AssociatedFunction) -> Seq<char> {
    match a {
        type_ast::AssociatedFunction::Function(f) => f.name@,
        type_ast::AssociatedFunction::Method(f) => f.name@,
    }
}

/// The names of the functions a typed definition gives, in order.
pub open spec fn def_fn_names(d: type_ast::Definition) -> Seq<Seq<char>> {
    match d {
        type_ast::Definition::StructDef(_) => Seq::empty(),
        type_ast::Definition::FunctionDef(f) => seq![f.name@],
        type_ast::Definition::ImplDef(imp) => imp.functions@.map_values(
            |a: type_ast::AssociatedFunction| assoc_name(a),
        ),
    }
}

/// The names of the functions of typed definitions, in order.
pub open spec fn defs_fn_names(defs: Seq<type_ast::Definition>) -> Seq<Seq<char>>
    decreases defs.len(),
{
    if defs.len() == 0 {
        Seq::empty()
    } else {
        defs_fn_names(defs.drop_last()) + def_fn_names(defs.last())
    }
}

/// The names of the functions a definition of a program gives: a function,
/// or a struct's functions then its methods.
pub open spec fn stmt_fn_names(s: ast::Statement) -> Seq<Seq<char>> {
    match s {
        ast::Statement::FunctionDef(f) => seq![f.name@],
        ast::Statement::StructDef(d) => d.functions@.map_values(|f: ast::FunctionDef| f.name@)
            + d.methods@.map_values(|f: ast::FunctionDef| f.name@),
    }
}

/// The names of the functions of a program, in order.
pub open spec fn program_fn_names(stmts: Seq<ast::Statement>) -> Seq<Seq<char>>
    decreases stmts.len(),
{
    if stmts.len() == 0 {
        Seq::empty()
    } else {
        program_fn_names(stmts.drop_last()) + stmt_fn_names(stmts.last())
    }
}

/// The names of the functions of two runs of typed definitions, one after
/// the other.
pub proof fn lemma_defs_fn_names_append(a: Seq<type_ast::Definition>, b: Seq<type_ast::Definition>)
    ensures
        defs_fn_names(a + b) == defs_fn_names(a) + defs_fn_names(b),
    decreases b.len(),
{
    if b.len() == 0 {
        assert(a + b =~= a);
        assert(defs_fn_names(a) + defs_fn_names(b) =~= defs_fn_names(a));
    } else {
        assert((a + b).drop_last() =~= a + b.drop_last());
        lemma_defs_fn_names_append(a, b.drop_last());
        assert(defs_fn_names(a + b) =~= defs_fn_names(a) + defs_fn_names(b));
    }
}

/// Where the typed definitions of a definition start depends only on the
/// definitions before it.
proof fn lemma_def_offset_prefix(stmts: Seq<ast::Statement>, n: int, k: int)
    requires
        0 <= k <= n <= stmts.len(),
    ensures
        def_offset(stmts.take(n), k) == def_offset(stmts, k),
    decreases k,
{
    if k > 0 {
        lemma_def_offset_prefix(stmts, n, k - 1);
    }
}

/// Typed definitions that match the definitions of a program give the
/// functions of the program, by name and in order.
#[verifier::spinoff_prover]
#[verifier::rlimit(30)]
pub proof fn lemma_program_fn_names(stmts: Seq<ast::Statement>, defs: Seq<type_ast::Definition>)
    requires
        defs.len() == def_offset(stmts, stmts.len() as int),
        forall|k: int| 0 <= k < stmts.len() ==> defs_match(#[trigger] stmts[k], defs, def_offset(stmts, k)),
    ensures
        defs_fn_names(defs) == program_fn_names(stmts),
    decreases stmts.len(),
{
    let n = stmts.len() as int;
    if n == 0 {
        assert(defs =~= Seq::<type_ast::Definition>::empty());
    } else {
        let s2 = stmts.drop_last();
        let o = def_offset(stmts, n - 1);
        lemma_def_offset_nonneg(stmts, n - 1);
        let d2 = defs.take(o);
        assert(s2 =~= stmts.take(n - 1));
        assert forall|k: int| 0 <= k < s2.len() implies defs_match(#[trigger] s2[k], d2, def_offset(s2, k)) by {
            lemma_def_offset_prefix(stmts, n - 1, k);
            lemma_def_offset_grows(stmts, k, n - 1);
            let ok = def_offset(stmts, k);
            assert(d2[ok] == defs[ok]);
            if def_count(stmts[k]) == 2 {
                assert(d2[ok + 1] == defs[ok + 1]);
            }
        }
        lemma_def_offset_prefix(stmts, n - 1, n - 1);
        lemma_program_fn_names(s2, d2);
        let tail = defs.subrange(o, defs.len() as int);
        assert(defs =~= d2 + tail);
        lemma_defs_fn_names_append(d2, tail);
        assert(stmts.last() == stmts[n - 1]);
        lemma_last_fn_names(stmts[n - 1], defs, o);
    }
}

/// The typed definitions that end a run and match a definition of a
/// program give its functions, by name and in order.
proof fn lemma_last_fn_names(last: ast::Statement, defs: Seq<type_ast::Definition>, o: int)
    requires
        0 <= o,
        defs.len() == o + def_count(last),
        defs_match(last, defs, o),
    ensures
        defs_fn_names(defs.subrange(o, defs.len() as int)) == stmt_fn_names(last),
{
    let tail = defs.subrange(o, defs.len() as int);
    if def_count(last) == 1 {
        assert(tail.drop_last() =~= Seq::<type_ast::Definition>::empty());
        assert(defs_fn_names(tail.drop_last()) == Seq::<Seq<char>>::empty());
        assert(tail.last() == defs[o]);
        assert(defs_fn_names(tail) =~= def_fn_names(defs[o]));
        if let ast::Statement::StructDef(d) = last {
            assert(stmt_fn_names(last) =~= Seq::<Seq<char>>::empty());
        }
        assert(defs_fn_names(tail) =~= stmt_fn_names(last));
    } else {
        let d = last->StructDef_0;
        let imp = defs[o + 1]->ImplDef_0;
        let t1 = tail.drop_last();
        assert(t1 =~= seq![defs[o]]);
        assert(t1.drop_last() =~= Seq::<type_ast::Definition>::empty());
        assert(defs_fn_names(t1.drop_last()) == Seq::<Seq<char>>::empty());
        assert(t1.last() == defs[o]);
        assert(defs_fn_names(t1) =~= Seq::<Seq<char>>::empty());
        assert(tail.last() == defs[o + 1]);
        assert(defs_fn_names(tail) =~= def_fn_names(defs[o + 1]));
        lemma_impl_fn_names(d, imp.functions@);
    }
}

/// The typed functions of a struct have the names of its functions, then
/// those of its methods.
proof fn lemma_impl_fn_names(d: ast::StructDef, fs: Seq<type_ast::AssociatedFunction>)
    requires
        impl_matches(d, fs),
    ensures
        fs.map_values(|a: type_ast::AssociatedFunction| assoc_name(a)) == stmt_fn_names(
            ast::Statement::StructDef(d),
        ),
{
    let nf = d.functions@.len() as int;
    let names = stmt_fn_names(ast::Statement::StructDef(d));
    assert forall|k: int| 0 <= k < fs.len() implies #[trigger] assoc_name(fs[k]) == names[k] by {
        if k < nf {
            assert(assoc_matches(d.functions@[k], fs[k], false));
        } else {
            assert(assoc_matches(d.methods@[k - nf], fs[nf + (k - nf)], true));
        }
    }
    assert(fs.map_values(|a: type_ast::AssociatedFunction| assoc_name(a)) =~= names);
}

/// The native function type of a method of a vector type: `new` makes
/// one, `push` adds an element to one, `len` gives its length.
pub open spec fn method_kind(kinds: Seq<TypeKindView>, this: TypeId, name: Seq<char>) -> Option<TypeKindView> {
    match kind_of(kinds, this) {
        Some(TypeKindView::Vec { element }) => if name == seq!['n', 'e', 'w'] {
            Some(TypeKindView::NativeFunction { args: Seq::empty(), return_ty: this })
        } else if name == seq!['p', 'u', 's', 'h'] {
            Some(TypeKindView::NativeFunction { args: seq![this, element], return_ty: TypeId(0) })
        } else if name == seq!['l', 'e', 'n'] {
            Some(TypeKindView::NativeFunction { args: seq![this], return_ty: TypeId(2) })
        } else {
            None
        },
        _ => None,
    }
}

/// A type has a method of a name: it is a vector type, the name is `new`,
/// `push` or `len`, and the native function is declared.
pub open spec fn method_available(kinds: Seq<TypeKindView>, symbols: SymbolTable, this: TypeId, name: Seq<char>) -> bool {
    &&& method_kind(kinds, this, name) is Some
    &&& symbols.resolved(method_global(name)) is Some
}

/// The global that holds the native function of a method of vectors:
/// `Vec::` and the method's name.
pub open spec fn method_global(name: Seq<char>) -> Seq<char> {
    seq!['V', 'e', 'c', ':', ':'] + name
}

/// The native functions `print`, `Vec::new`, `Vec::push` and `Vec::len` can
/// all be added to a table: none is declared where names are added now,
/// and inside a scope four local slots are left.
pub open spec fn native_names_free(t: SymbolTable) -> bool {
    &&& t.declared("print"@) is None
    &&& t.declared("Vec::new"@) is None
    &&& t.declared("Vec::push"@) is None
    &&& t.declared("Vec::len"@) is None
    &&& t.scopes().len() > 0 ==> t.next_slot() + 4 <= usize::MAX
}

/// The names of the functions defined at the top of a program, in order.
pub open spec fn fn_names_of(stmts: Seq<ast::Statement>) -> Seq<Seq<char>>
    decreases stmts.len(),
{
    if stmts.len() == 0 {
        Seq::empty()
    } else {
        let rest = fn_names_of(stmts.drop_last());
        match stmts.last() {
            ast::Statement::FunctionDef(f) => rest.push(f.name@),
            _ => rest,
        }
    }
}

/// The names of the functions of the first `n` statements come first among
/// the names of the functions of all of them.
proof fn lemma_fn_names_prefix(stmts: Seq<ast::Statement>, n: int)
    requires
        0 <= n <= stmts.len(),
    ensures
        fn_names_of(stmts.take(n)).len() <= fn_names_of(stmts).len(),
        fn_names_of(stmts).take(fn_names_of(stmts.take(n)).len() as int) == fn_names_of(stmts.take(n)),
    decreases stmts.len(),
{
    if n == stmts.len() {
        assert(stmts.take(n) =~= stmts);
        assert(fn_names_of(stmts).take(fn_names_of(stmts).len() as int) =~= fn_names_of(stmts));
    } else {
        let init = stmts.drop_last();
        assert(init.take(n) =~= stmts.take(n));
        lemma_fn_names_prefix(init, n);
        let m = fn_names_of(stmts.take(n)).len() as int;
        assert(fn_names_of(stmts).take(m) =~= fn_names_of(init).take(m));
    }
}

/// A definition of a program can be declared on its own: a function whose
/// parameter and return types name types, and whose name is not declared
/// yet where names are added.
pub open spec fn fn_ok(t: SymbolTable, structs: Seq<Seq<char>>, s: ast::Statement) -> bool {
    match s {
        ast::Statement::FunctionDef(f) => {
            &&& forall|k: int| 0 <= k < f.args@.len() ==> typeable(structs, (#[trigger] f.args@[k]).type_)
            &&& (f.return_type matches Some(ty) ==> typeable(structs, ty))
            &&& t.declared(f.name@) is None
        },
        _ => true,
    }
}

/// The functions of a program can all be declared in a table, given the
/// names of the structs: each can on its own, no name occurs twice, and
/// inside a scope a local slot is left for each.
pub open spec fn functions_declarable(t: SymbolTable, structs: Seq<Seq<char>>, stmts: Seq<ast::Statement>) -> bool {
    &&& forall|k: int| 0 <= k < stmts.len() ==> fn_ok(t, structs, #[trigger] stmts[k])
    &&& fn_names_of(stmts).no_duplicates()
    &&& t.scopes().len() > 0 ==> t.next_slot() + fn_names_of(stmts).len() <= usize::MAX
}

/// Where one definition cannot be declared, the functions of the program
/// cannot all be.
proof fn lemma_fn_ok_all(t: SymbolTable, structs: Seq<Seq<char>>, stmts: Seq<ast::Statement>, i: int)
    requires
        0 <= i < stmts.len(),
        !fn_ok(t, structs, stmts[i]),
    ensures
        !functions_declarable(t, structs, stmts),
{
}

/// The expressions whose typing follows from their form and the names in
/// scope alone: literals, names, and prefix and infix operators over such
/// expressions.
pub open spec fn plain_expr(e: ast::Expr) -> bool
    decreases e,
{
    match e {
        ast::Expr::Literal(_) => true,
        ast::Expr::Path { .. } => true,
        ast::Expr::Unary { expr, .. } => plain_expr(*expr),
        ast::Expr::Binary { left, right, .. } => plain_expr(*left) && plain_expr(*right),
        _ => false,
    }
}

/// The type of a plain expression under the names in scope, where it is
/// well typed: a literal has its literal type; a name (one segment, no
/// type arguments) bound to a value has that value's type; a prefix
/// operator has its operand's type; an infix operator over two operands of
/// one type (booleans for `&&` and `||`) has its result type.
pub open spec fn plain_type(symbols: SymbolTable, e: ast::Expr) -> Option<TypeId>
    decreases e,
{
    match e {
        ast::Expr::Literal(l) => Some(literal_type(l)),
        ast::Expr::Path { segments } => if segments@.len() == 1 && segments@[0].args@.len() == 0 {
            match symbols.resolved(segments@[0].ident@) {
                Some(sym) => match sym.kind {
                    SymbolKind::Normal { type_id } => Some(type_id),
                    _ => None,
                },
                None => None,
            }
        } else {
            None
        },
        ast::Expr::Unary { expr, .. } => plain_type(symbols, *expr),
        ast::Expr::Binary { left, op, right } => match (plain_type(symbols, *left), plain_type(symbols, *right)) {
            (Some(a), Some(b)) => if a == b && ((op == BinaryOp::And || op == BinaryOp::Or) ==> a == TypeId(1)) {
                Some(binary_type(op, a))
            } else {
                None
            },
            _ => None,
        },
        _ => None,
    }
}

/// A struct definition without functions or methods whose field types
/// name types, given the names of the structs.
pub open spec fn simple_struct(stmt: ast::Statement, names: Seq<Seq<char>>) -> bool {
    &&& stmt matches ast::Statement::StructDef(d)
    &&& d.functions@.len() == 0
    &&& d.methods@.len() == 0
    &&& forall|k: int| 0 <= k < d.fields@.len() ==> typeable(names, #[trigger] d.fields@[k].type_)
}

/// A program of struct definitions without functions or methods defines
/// no function, and declares none.
pub proof fn lemma_struct_program_fn_names(stmts: Seq<ast::Statement>, names: Seq<Seq<char>>)
    requires
        forall|k: int| 0 <= k < stmts.len() ==> simple_struct(#[trigger] stmts[k], names),
    ensures
        program_fn_names(stmts).len() == 0,
        fn_names_of(stmts).len() == 0,
    decreases stmts.len(),
{
    if stmts.len() > 0 {
        let rest = stmts.drop_last();
        assert forall|k: int| 0 <= k < rest.len() implies simple_struct(#[trigger] rest[k], names) by {
            assert(rest[k] == stmts[k]);
        }
        lemma_struct_program_fn_names(rest, names);
        assert(simple_struct(stmts[stmts.len() - 1], names));
        let d = stmts.last()->StructDef_0;
        assert(d.functions@.map_values(|f: ast::FunctionDef| f.name@) =~= Seq::<Seq<char>>::empty());
        assert(d.methods@.map_values(|f: ast::FunctionDef| f.name@) =~= Seq::<Seq<char>>::empty());
    }
}

/// A function definition's name is declared as a global.
pub open spec fn global_fn(t: SymbolTable, s: ast::Statement) -> bool {
    s matches ast::Statement::FunctionDef(f) ==> (t.declared(f.name@) matches Some(sym) && sym.location is Global)
}

/// A function definition without parameters or return type whose body is
/// plain and well typed in a first scope of its own, whatever the globals,
/// its local slots numbered from `n` on.
pub open spec fn closed_plain_fn(s: ast::Statement, n: int) -> bool {
    &&& s matches ast::Statement::FunctionDef(f)
    &&& f.args@.len() == 0
    &&& f.return_type is None
    &&& forall|t2: SymbolTable|
        (t2.scopes() == seq![Seq::<Symbol>::empty()] && t2.next_slot() == n) ==> #[trigger] plain_block_from(
            t2,
            f.body.statements@,
            0,
            None,
        )
}

/// `after` is `before` with a new empty innermost scope.
pub open spec fn scope_entered(after: SymbolTable, before: SymbolTable) -> bool {
    &&& after.scopes() == before.scopes().push(Seq::empty())
    &&& after.globals() == before.globals()
    &&& after.next_slot() == before.next_slot()
    &&& after.slot_types() == before.slot_types()
}

/// A function without `self`, parameters or return type whose name is a
/// global and whose body is plain and well typed in a new scope.
pub open spec fn plain_fn(t: SymbolTable, fn_def: ast::FunctionDef) -> bool {
    &&& fn_def.args@.len() == 0
    &&& fn_def.return_type is None
    &&& t.resolved(fn_def.name@) matches Some(sym) && sym.location is Global
    &&& forall|t2: SymbolTable| #[trigger] scope_entered(t2, t) ==> plain_block_from(t2, fn_def.body.statements@, 0, None)
}

/// `after` is `before` with a value of a type bound to a name at `loc`.
pub open spec fn value_added(after: SymbolTable, before: SymbolTable, name: Seq<char>, ty: TypeId, loc: Location) -> bool {
    after.added(&before, name, SymbolKind::Normal { type_id: ty }, ty, loc)
}

/// The statements of a block from the `i`-th on are plain and well typed,
/// under a table of names in scope: a `let` of a well typed plain
/// expression whose name can be added, after which the rest is well typed
/// under the table with that name bound to the expression's type; an
/// assignment or expression statement of well typed plain expressions; a
/// `return` whose plain expression has the function's return type (or none,
/// where the function returns nothing); `break` and `continue`.
pub open spec fn plain_block_from(
    t: SymbolTable,
    stmts: Seq<ast::BlockStmt>,
    i: int,
    return_ty: Option<TypeId>,
) -> bool
    decreases stmts.len() - i,
{
    if i < 0 || i >= stmts.len() {
        true
    } else {
        match stmts[i] {
            ast::BlockStmt::Let(l) => plain_expr(l.expr) && match plain_type(t, l.expr) {
                Some(ty) => !t.refuses(l.var_name@) && forall|t2: SymbolTable, loc: Location|
                    #[trigger] value_added(t2, t, l.var_name@, ty, loc) ==> plain_block_from(t2, stmts, i + 1, return_ty),
                None => false,
            },
            ast::BlockStmt::Assign(a) => plain_expr(a.target) && plain_expr(a.expr) && plain_type(t, a.target) is Some
                && plain_type(t, a.expr) is Some && plain_block_from(t, stmts, i + 1, return_ty),
            ast::BlockStmt::Return(ret) => (match ret.expr {
                Some(e) => plain_expr(e) && plain_type(t, e) is Some && plain_type(t, e) == return_ty,
                None => return_ty is None,
            }) && plain_block_from(t, stmts, i + 1, return_ty),
            ast::BlockStmt::Expr(e) => plain_expr(e) && plain_type(t, e) is Some && plain_block_from(
                t,
                stmts,
                i + 1,
                return_ty,
            ),
            ast::BlockStmt::Break => plain_block_from(t, stmts, i + 1, return_ty),
            ast::BlockStmt::Continue => plain_block_from(t, stmts, i + 1, return_ty),
            _ => false,
        }
    }
}

/// A `let` statement's name is bound where names are added now: to the
/// slot of the typed statement, as a value of its expression's type.
pub open spec fn let_bound(t: SymbolTable, s: ast::BlockStmt, ts: type_ast::BlockStmt) -> bool {
    s matches ast::BlockStmt::Let(l) ==> (ts matches type_ast::BlockStmt::Let(tl) && t.declared(l.var_name@) matches Some(
        sym,
    ) && sym.name@ == l.var_name@ && sym.location == tl.location && sym.kind == SymbolKind::Normal {
        type_id: tl.expr.spec_ty(),
    })
}

/// After a plain `let` whose name is bound, the rest of the block is plain
/// and well typed under the new table.
proof fn lemma_plain_let_step(
    t: SymbolTable,
    stmts: Seq<ast::BlockStmt>,
    i: int,
    rt: Option<TypeId>,
    t2: SymbolTable,
    loc: Location,
)
    requires
        0 <= i < stmts.len(),
        stmts[i] is Let,
        plain_block_from(t, stmts, i, rt),
        value_added(t2, t, stmts[i]->Let_0.var_name@, plain_type(t, stmts[i]->Let_0.expr)->0, loc),
    ensures
        plain_block_from(t2, stmts, i + 1, rt),
{
}

/// The number of `let` statements among statements.
pub open spec fn let_count(stmts: Seq<ast::BlockStmt>) -> nat
    decreases stmts.len(),
{
    if stmts.len() == 0 {
        0
    } else {
        let_count(stmts.drop_last()) + if stmts.last() is Let {
            1nat
        } else {
            0nat
        }
    }
}

/// A struct literal whose written type is the name of a struct of the
/// table (with an id that fits 64 bits), and whose fields are plain and
/// well typed and set every field of that struct once, in any order.
pub open spec fn plain_struct_lit(
    symbols: SymbolTable,
    structs: Seq<type_ast::StructDef>,
    struct_ty: ast::Type,
    fields: Seq<ast::FieldAssign>,
) -> bool {
    let name = struct_ty.segments@[0].ident@;
    &&& struct_ty.segments@.len() == 1
    &&& struct_ty.segments@[0].args@.len() == 0
    &&& name != vec_name()
    &&& basic_kind(name) is None
    &&& first_index(struct_def_names(structs), name) matches Some(id)
    &&& id <= u64::MAX
    &&& init_names(fields).no_duplicates()
    &&& fields.len() == field_names(structs[id]).len()
    &&& forall|k: int| 0 <= k < fields.len() ==> field_names(structs[id]).contains(#[trigger] init_names(fields)[k])
    &&& forall|n: int|
        0 <= n < field_names(structs[id]).len() ==> init_names(fields).contains(#[trigger] field_names(structs[id])[n])
    &&& forall|k: int|
        0 <= k < fields.len() ==> plain_expr(#[trigger] fields[k].expr) && plain_type(symbols, fields[k].expr) is Some
}

/// Typing an infix operation: its operands have one type; a comparison
/// (`==`, `!=`, `<`, `<=`, `>`, `>=`) and `&&` and `||` are booleans (the
/// type of id 1) whatever that type is; the arithmetic, bitwise and shift
/// operators have the type of their operands.
pub proof fn law_binary_typing(
    kinds: Seq<TypeKindView>,
    structs: Seq<type_ast::StructDef>,
    symbols: SymbolTable,
    left: ast::Expr,
    op: BinaryOp,
    right: ast::Expr,
    te: type_ast::Expr,
)
    requires
        typed(kinds, structs, symbols, ast::Expr::Binary { left: Box::new(left), op, right: Box::new(right) }, te),
    ensures
        te matches type_ast::Expr::Binary { left: l2, right: r2, .. } && l2.spec_ty() == r2.spec_ty(),
        (is_comparison(op) || op == BinaryOp::And || op == BinaryOp::Or) ==> te.spec_ty() == TypeId(1),
        !(is_comparison(op) || op == BinaryOp::And || op == BinaryOp::Or) ==> te.spec_ty()
            == te->Binary_left.spec_ty(),
{
}

/// Typing a literal or a prefix operation: `nil`, a boolean, an integer,
/// a float and a string literal have the types of ids 0 to 4 in that order,
/// and a prefix operation has the type of its operand.
pub proof fn law_literal_and_prefix_typing(
    kinds: Seq<TypeKindView>,
    structs: Seq<type_ast::StructDef>,
    symbols: SymbolTable,
    e: ast::Expr,
    te: type_ast::Expr,
)
    requires
        typed(kinds, structs, symbols, e, te),
    ensures
        e == ast::Expr::Literal(Literal::Nil) ==> te.spec_ty() == TypeId(0),
        e matches ast::Expr::Literal(Literal::Bool(_)) ==> te.spec_ty() == TypeId(1),
        e matches ast::Expr::Literal(Literal::Int(_)) ==> te.spec_ty() == TypeId(2),
        e matches ast::Expr::Literal(Literal::Float(_)) ==> te.spec_ty() == TypeId(3),
        e matches ast::Expr::Literal(Literal::String(_)) ==> te.spec_ty() == TypeId(4),
        e is Unary ==> (te matches type_ast::Expr::Unary { expr: e2, ty, .. } && ty == e2.spec_ty()),
{
}

/// A comparison of two well typed plain operands of one type, whatever
/// that type, is accepted and is a boolean (the type of id 1).
pub proof fn law_plain_comparison_is_bool(
    symbols: SymbolTable,
    left: ast::Expr,
    op: BinaryOp,
    right: ast::Expr,
    t: TypeId,
)
    requires
        is_comparison(op),
        plain_type(symbols, left) == Some(t),
        plain_type(symbols, right) == Some(t),
    ensures
        plain_type(symbols, ast::Expr::Binary { left: Box::new(left), op, right: Box::new(right) }) == Some(TypeId(1)),
{
}

/// The names of struct definitions, in order.
pub open spec fn struct_def_names(structs: Seq<type_ast::StructDef>) -> Seq<Seq<char>> {
    structs.map_values(|d: type_ast::StructDef| d.name@)
}

/// The kind of a type, if the table has it.
pub open spec fn kind_of(kinds: Seq<TypeKindView>, t: TypeId) -> Option<TypeKindView> {
    if t.0 < kinds.len() {
        Some(kinds[t.0 as int])
    } else {
        None
    }
}

/// The parameter types and the return type of a function kind.
pub open spec fn callable(k: Option<TypeKindView>) -> Option<(Seq<TypeId>, TypeId)> {
    match k {
        Some(TypeKindView::NativeFunction { args, return_ty }) => Some((args, return_ty)),
        Some(TypeKindView::Fn { args, return_ty }) => Some((args, return_ty)),
        _ => None,
    }
}

/// The names of the fields of a struct, in order.
pub open spec fn field_names(def: type_ast::StructDef) -> Seq<Seq<char>> {
    def.fields@.map_values(|f: type_ast::Field| f.name@)
}

/// The last index of a name in a list of names.
pub open spec fn last_index(names: Seq<Seq<char>>, name: Seq<char>) -> Option<int> {
    if exists|i: int|
        0 <= i < names.len() && names[i] == name && forall|j: int| i < j < names.len() ==> names[j] != name {
        Some(
            choose|i: int|
                0 <= i < names.len() && names[i] == name && forall|j: int| i < j < names.len() ==> names[j] != name,
        )
    } else {
        None
    }
}

/// A name among names has a last index.
proof fn lemma_last_index_some(names: Seq<Seq<char>>, name: Seq<char>)
    requires
        names.contains(name),
    ensures
        last_index(names, name) is Some,
    decreases names.len(),
{
    let n = names.len() as int;
    if names[n - 1] == name {
        assert(forall|j: int| n - 1 < j < n ==> names[j] != name);
    } else {
        let rest = names.drop_last();
        let a = choose|a: int| 0 <= a < n && names[a] == name;
        assert(rest[a] == name);
        lemma_last_index_some(rest, name);
        let i = last_index(rest, name)->0;
        assert(forall|j: int| i < j < n ==> names[j] != name) by {
            assert forall|j: int| i < j < n implies names[j] != name by {
                if j < n - 1 {
                    assert(rest[j] == names[j]);
                }
            }
        }
        assert(0 <= i < n && names[i] == name);
    }
}

/// The names a struct literal gives values to, in order.
pub open spec fn init_names(fields: Seq<ast::FieldAssign>) -> Seq<Seq<char>> {
    fields.map_values(|f: ast::FieldAssign| f.name@)
}

/// The typing rules: `te` is what the analysis makes of `e` given the
/// kinds of the types, the structs and the names in scope. Each part gets
/// the type its rule gives from the types of its parts: a literal its own;
/// a unary operation that of its operand; a binary operation operands of
/// one type, booleans for `&&` and `||`, and a boolean or that type as
/// its result; a call a function type whose parameters are the arguments'
/// types (a method call passing its receiver first), and the return type;
/// an index an integer into a vector, and the element type; a field access
/// a struct with the field (the first of that name) and the field's type; a
/// struct literal every field of the struct once; a name a value in scope,
/// with its type and location.
pub open spec fn typed(
    kinds: Seq<TypeKindView>,
    structs: Seq<type_ast::StructDef>,
    symbols: SymbolTable,
    e: ast::Expr,
    te: type_ast::Expr,
) -> bool
    decreases e,
{
    match e {
        ast::Expr::Literal(l) => te == type_ast::Expr::Literal { value: l, ty: literal_type(l) },
        ast::Expr::Unary { op, expr } => match te {
            type_ast::Expr::Unary { op: op2, expr: e2, ty } => op2 == op && ty == e2.spec_ty() && typed(
                kinds,
                structs,
                symbols,
                *expr,
                *e2,
            ),
            _ => false,
        },
        ast::Expr::Binary { left, op, right } => match te {
            type_ast::Expr::Binary { left: l2, op: op2, right: r2, ty } => {
                &&& op2 == op
                &&& typed(kinds, structs, symbols, *left, *l2)
                &&& typed(kinds, structs, symbols, *right, *r2)
                &&& l2.spec_ty() == r2.spec_ty()
                &&& ty == binary_type(op, l2.spec_ty())
                &&& (op == BinaryOp::And || op == BinaryOp::Or) ==> l2.spec_ty() == TypeId(1)
            },
            _ => false,
        },
        ast::Expr::Call { func, args } => match te {
            type_ast::Expr::Call { func: f2, args: a2, ty } => {
                &&& match callable(kind_of(kinds, f2.spec_ty())) {
                    Some((ps, ret)) => ps.len() == a2@.len() && ty == ret && forall|k: int|
                        0 <= k < a2@.len() ==> #[trigger] a2@[k].spec_ty() == ps[k],
                    None => false,
                }
                &&& match *func {
                    ast::Expr::Member { target, member } => {
                        &&& a2@.len() == args@.len() + 1
                        &&& typed(kinds, structs, symbols, *target, a2@[0])
                        &&& match *f2 {
                            type_ast::Expr::Method { this_ty, method_name, .. } => this_ty == a2@[0].spec_ty()
                                && method_name@ == member@,
                            _ => false,
                        }
                        &&& forall|k: int|
                            0 <= k < args@.len() ==> typed(kinds, structs, symbols, #[trigger] args@[k], a2@[k + 1])
                    },
                    ast::Expr::Path { .. } => {
                        &&& *f2 is Path
                        &&& a2@.len() == args@.len()
                        &&& forall|k: int|
                            0 <= k < args@.len() ==> typed(kinds, structs, symbols, #[trigger] args@[k], a2@[k])
                    },
                    _ => {
                        &&& typed(kinds, structs, symbols, *func, *f2)
                        &&& a2@.len() == args@.len()
                        &&& forall|k: int|
                            0 <= k < args@.len() ==> typed(kinds, structs, symbols, #[trigger] args@[k], a2@[k])
                    },
                }
            },
            _ => false,
        },
        ast::Expr::Index { target, index } => match te {
            type_ast::Expr::Index { target: t2, index: i2, ty } => {
                &&& typed(kinds, structs, symbols, *target, *t2)
                &&& typed(kinds, structs, symbols, *index, *i2)
                &&& i2.spec_ty() == TypeId(2)
                &&& kind_of(kinds, t2.spec_ty()) == Some(TypeKindView::Vec { element: ty })
            },
            _ => false,
        },
        ast::Expr::Member { target, member } => match te {
            type_ast::Expr::Member { target: t2, member: m2, offset, member_ty } => {
                &&& typed(kinds, structs, symbols, *target, *t2)
                &&& m2@ == member@
                &&& match kind_of(kinds, t2.spec_ty()) {
                    Some(TypeKindView::Struct(id)) => id.0 < structs.len() && first_index(
                        field_names(structs[id.0 as int]),
                        member@,
                    ) == Some(offset as int) && member_ty == structs[id.0 as int].fields@[offset as int].type_,
                    _ => false,
                }
            },
            _ => false,
        },
        ast::Expr::Struct { struct_ty: written, fields } => match te {
            type_ast::Expr::Struct { struct_ty, fields: f2 } => match kind_of(kinds, struct_ty) {
                Some(TypeKindView::Struct(id)) => {
                    let def = structs[id.0 as int];
                    &&& denotes(kinds, struct_def_names(structs), written, struct_ty)
                    &&& id.0 < structs.len()
                    &&& f2@.len() == fields@.len()
                    &&& forall|k: int|
                        0 <= k < fields@.len() ==> {
                            &&& (#[trigger] f2@[k]).name@ == fields@[k].name@
                            &&& last_index(field_names(def), fields@[k].name@) == Some(f2@[k].offset as int)
                            &&& typed(kinds, structs, symbols, fields@[k].expr, f2@[k].expr)
                        }
                    &&& forall|k: int, m: int|
                        0 <= k < m < fields@.len() ==> (#[trigger] fields@[k]).name@ != (#[trigger] fields@[m]).name@
                    &&& forall|n: int|
                        0 <= n < def.fields@.len() ==> init_names(fields@).contains((#[trigger] def.fields@[n]).name@)
                    &&& fields@.len() == def.fields@.len()
                },
                _ => false,
            },
            _ => false,
        },
        ast::Expr::Path { segments } => match te {
            type_ast::Expr::Path { location, ty, .. } => {
                &&& segments@.len() == 1
                &&& segments@[0].args@.len() == 0
                &&& match symbols.resolved(segments@[0].ident@) {
                    Some(sym) => sym.location == location && sym.kind == (SymbolKind::Normal { type_id: ty }),
                    None => false,
                }
            },
            _ => false,
        },
    }
}

/// The typing rules hold over more kinds where they hold over fewer.
proof fn lemma_typed_extends(
    k1: Seq<TypeKindView>,
    k2: Seq<TypeKindView>,
    structs: Seq<type_ast::StructDef>,
    symbols: SymbolTable,
    e: ast::Expr,
    te: type_ast::Expr,
)
    requires
        typed(k1, structs, symbols, e, te),
        extends(k1, k2),
    ensures
        typed(k2, structs, symbols, e, te),
    decreases e,
{
    match e {
        ast::Expr::Literal(_) => {},
        ast::Expr::Unary { expr, .. } => {
            if let type_ast::Expr::Unary { expr: e2, .. } = te {
                lemma_typed_extends(k1, k2, structs, symbols, *expr, *e2);
            }
        },
        ast::Expr::Binary { left, right, .. } => {
            if let type_ast::Expr::Binary { left: l2, right: r2, .. } = te {
                lemma_typed_extends(k1, k2, structs, symbols, *left, *l2);
                lemma_typed_extends(k1, k2, structs, symbols, *right, *r2);
            }
        },
        ast::Expr::Call { func, args } => {
            if let type_ast::Expr::Call { func: f2, args: a2, .. } = te {
                assert(kind_of(k2, f2.spec_ty()) == kind_of(k1, f2.spec_ty()));
                match *func {
                    ast::Expr::Member { target, .. } => {
                        lemma_typed_extends(k1, k2, structs, symbols, *target, a2@[0]);
                        assert forall|k: int| 0 <= k < args@.len() implies typed(
                            k2,
                            structs,
                            symbols,
                            #[trigger] args@[k],
                            a2@[k + 1],
                        ) by {
                            lemma_typed_extends(k1, k2, structs, symbols, args@[k], a2@[k + 1]);
                        }
                    },
                    ast::Expr::Path { .. } => {
                        assert forall|k: int| 0 <= k < args@.len() implies typed(
                            k2,
                            structs,
                            symbols,
                            #[trigger] args@[k],
                            a2@[k],
                        ) by {
                            lemma_typed_extends(k1, k2, structs, symbols, args@[k], a2@[k]);
                        }
                    },
                    _ => {
                        lemma_typed_extends(k1, k2, structs, symbols, *func, *f2);
                        assert forall|k: int| 0 <= k < args@.len() implies typed(
                            k2,
                            structs,
                            symbols,
                            #[trigger] args@[k],
                            a2@[k],
                        ) by {
                            lemma_typed_extends(k1, k2, structs, symbols, args@[k], a2@[k]);
                        }
                    },
                }
            }
        },
        ast::Expr::Index { target, index } => {
            if let type_ast::Expr::Index { target: t2, index: i2, .. } = te {
                lemma_typed_extends(k1, k2, structs, symbols, *target, *t2);
                lemma_typed_extends(k1, k2, structs, symbols, *index, *i2);
                assert(kind_of(k2, t2.spec_ty()) == kind_of(k1, t2.spec_ty()));
            }
        },
        ast::Expr::Member { target, .. } => {
            if let type_ast::Expr::Member { target: t2, .. } = te {
                lemma_typed_extends(k1, k2, structs, symbols, *target, *t2);
                assert(kind_of(k2, t2.spec_ty()) == kind_of(k1, t2.spec_ty()));
            }
        },
        ast::Expr::Struct { struct_ty: written, fields } => {
            if let type_ast::Expr::Struct { struct_ty, fields: f2 } = te {
                assert(kind_of(k2, struct_ty) == kind_of(k1, struct_ty));
                if kind_of(k1, struct_ty) is Some {
                    lemma_denotes_extends(k1, k2, struct_def_names(structs), written, struct_ty);
                }
                if let Some(TypeKindView::Struct(id)) = kind_of(k1, struct_ty) {
                    let def = structs[id.0 as int];
                    assert forall|k: int| 0 <= k < fields@.len() implies {
                        &&& (#[trigger] f2@[k]).name@ == fields@[k].name@
                        &&& last_index(field_names(def), fields@[k].name@) == Some(f2@[k].offset as int)
                        &&& typed(k2, structs, symbols, fields@[k].expr, f2@[k].expr)
                    } by {
                        lemma_typed_extends(k1, k2, structs, symbols, fields@[k].expr, f2@[k].expr);
                    }
                }
            }
        },
        ast::Expr::Path { .. } => {},
    }
}

/// The names of the structs that statements define, in order.
pub open spec fn struct_names(stmts: Seq<ast::Statement>) -> Seq<Seq<char>>
    decreases stmts.len(),
{
    if stmts.len() == 0 {
        Seq::empty()
    } else {
        let rest = struct_names(stmts.drop_last());
        match stmts.last() {
            ast::Statement::StructDef(d) => rest.push(d.name@),
            _ => rest,
        }
    }
}

/// The names of the structs of the first `n` statements come first among
/// the names of the structs of all of them.
proof fn lemma_struct_names_prefix(stmts: Seq<ast::Statement>, n: int)
    requires
        0 <= n <= stmts.len(),
    ensures
        struct_names(stmts.take(n)).len() <= struct_names(stmts).len(),
        struct_names(stmts).take(struct_names(stmts.take(n)).len() as int) == struct_names(stmts.take(n)),
    decreases stmts.len(),
{
    if n == stmts.len() {
        assert(stmts.take(n) =~= stmts);
        assert(struct_names(stmts).take(struct_names(stmts).len() as int) =~= struct_names(stmts));
    } else {
        let init = stmts.drop_last();
        assert(init.take(n) =~= stmts.take(n));
        lemma_struct_names_prefix(init, n);
        let m = struct_names(stmts.take(n)).len() as int;
        assert(struct_names(stmts).take(m) =~= struct_names(init).take(m));
    }
}

/// The structs of a program can all be declared in a table that has the
/// structs `old_names`: every name is new and none occurs twice, and every
/// field's type names a type once all of them are declared.
pub open spec fn structs_declarable(old_names: Seq<Seq<char>>, stmts: Seq<ast::Statement>) -> bool {
    &&& (old_names + struct_names(stmts)).no_duplicates()
    &&& forall|j: int|
        0 <= j < stmts.len() ==> (#[trigger] stmts[j] matches ast::Statement::StructDef(d) ==> forall|k: int|
            0 <= k < d.fields@.len() ==> typeable(old_names + struct_names(stmts), #[trigger] d.fields@[k].type_))
}

/// A struct defined by a statement is among the names of the structs.
proof fn lemma_struct_named(stmts: Seq<ast::Statement>, j: int)
    requires
        0 <= j < stmts.len(),
        stmts[j] is StructDef,
    ensures
        struct_names(stmts).contains(stmts[j]->StructDef_0.name@),
    decreases stmts.len(),
{
    let init = stmts.drop_last();
    if j < stmts.len() - 1 {
        assert(init[j] == stmts[j]);
        lemma_struct_named(init, j);
        let k = choose|k: int| 0 <= k < struct_names(init).len() && struct_names(init)[k]
            == stmts[j]->StructDef_0.name@;
        assert(struct_names(stmts)[k] == struct_names(init)[k]);
    } else {
        assert(struct_names(stmts).last() == stmts[j]->StructDef_0.name@);
    }
}

/// Two statements that define structs whose names are all distinct define
/// structs of distinct names.
proof fn lemma_struct_names_distinct(stmts: Seq<ast::Statement>, j: int, i: int)
    requires
        0 <= j < i < stmts.len(),
        stmts[j] is StructDef,
        stmts[i] is StructDef,
        struct_names(stmts).no_duplicates(),
    ensures
        stmts[j]->StructDef_0.name@ != stmts[i]->StructDef_0.name@,
    decreases stmts.len(),
{
    let init = stmts.drop_last();
    let names = struct_names(stmts);
    let rest = struct_names(init);
    assert(names == rest.push(stmts.last()->StructDef_0.name@) || names == rest);
    assert(rest.no_duplicates()) by {
        assert forall|a: int, b: int| 0 <= a < b < rest.len() implies rest[a] != rest[b] by {
            assert(names[a] == rest[a] && names[b] == rest[b]);
        }
    }
    if i < stmts.len() - 1 {
        assert(init[i] == stmts[i] && init[j] == stmts[j]);
        lemma_struct_names_distinct(init, j, i);
    } else {
        assert(init[j] == stmts[j]);
        lemma_struct_named(init, j);
        let k = choose|k: int| 0 <= k < rest.len() && rest[k] == stmts[j]->StructDef_0.name@;
        assert(names[k] == rest[k]);
        assert(names[rest.len() as int] == stmts[i]->StructDef_0.name@);
    }
}

/// Giving the struct of statement `i` its fields keeps the fields of the
/// structs of the statements before it, whose names differ.
proof fn lemma_fields_kept(
    stmts: Seq<ast::Statement>,
    names: Seq<Seq<char>>,
    before: Seq<type_ast::StructDef>,
    after: Seq<type_ast::StructDef>,
    i: int,
    ki: int,
)
    requires
        0 <= i < stmts.len(),
        stmts[i] is StructDef,
        struct_names(stmts).no_duplicates(),
        first_index(names, stmts[i]->StructDef_0.name@) == Some(ki),
        0 <= ki < after.len(),
        field_names(after[ki]) == ast_field_names(stmts[i]->StructDef_0),
        after.len() == before.len(),
        forall|k: int| 0 <= k < before.len() && k != ki ==> after[k] == before[k],
        forall|j: int|
            0 <= j < i ==> (#[trigger] stmts[j] matches ast::Statement::StructDef(d) ==> (first_index(
                names,
                d.name@,
            ) matches Some(k) && 0 <= k < before.len() && field_names(before[k]) == ast_field_names(d))),
    ensures
        forall|j: int|
            0 <= j < i + 1 ==> (#[trigger] stmts[j] matches ast::Statement::StructDef(d) ==> (first_index(
                names,
                d.name@,
            ) matches Some(k) && 0 <= k < after.len() && field_names(after[k]) == ast_field_names(d))),
{
    assert forall|j: int| 0 <= j < i + 1 implies (#[trigger] stmts[j] matches ast::Statement::StructDef(d) ==> (
    first_index(names, d.name@) matches Some(k) && 0 <= k < after.len() && field_names(after[k]) == ast_field_names(
        d,
    ))) by {
        if j < i {
            if let ast::Statement::StructDef(d) = stmts[j] {
                lemma_struct_names_distinct(stmts, j, i);
                let kj = first_index(names, d.name@)->0;
                assert(names[kj] == d.name@);
                assert(names[ki] == stmts[i]->StructDef_0.name@);
                assert(kj != ki);
                assert(after[kj] == before[kj]);
            }
        }
    }
}

/// The names of the fields of a struct definition, in order.
pub open spec fn ast_field_names(d: ast::StructDef) -> Seq<Seq<char>> {
    d.fields@.map_values(|f: ast::Field| f.name@)
}

/// The state of type analysis: the types, the structs, the functions and
/// the names in scope.
pub struct Semantic {
    pub type_table: TypeTable,
    pub struct_table: StructTable,
    pub function_table: FunctionTable,
    pub symbol_table: SymbolTable,
}

impl Semantic {
    /// The tables are well formed.
    pub open spec fn wf(&self) -> bool {
        self.type_table.wf() && self.struct_table.wf() && self.function_table.wf()
    }

    /// The kinds of the types known so far.
    pub open spec fn kinds(&self) -> Seq<TypeKindView> {
        self.type_table.kinds()
    }

    /// Nothing analysed yet: the five basic types, no structs, no names.
    pub fn new() -> (s: Semantic)
        ensures
            s.wf(),
            s.kinds().len() == 5,
            s.kinds() == seq![
                TypeKindView::Nil,
                TypeKindView::Bool,
                TypeKindView::Int,
                TypeKindView::Float,
                TypeKindView::String,
            ],
            s.struct_table.names().len() == 0,
            s.struct_table.defs().len() == 0,
            s.function_table.names().len() == 0,
            s.function_table.defs().len() == 0,
            s.symbol_table.scopes().len() == 0,
            s.symbol_table.globals().len() == 0,
            s.symbol_table.next_slot() == 0,
            s.symbol_table.slot_types().len() == 0,
    {
        Semantic {
            type_table: TypeTable::new(),
            struct_table: StructTable::new(),
            function_table: FunctionTable::new(),
            symbol_table: SymbolTable::new(),
        }
    }

    /// Declares the native generic functions `print`, `Vec::new`,
    /// `Vec::push` and `Vec::len`, each over one type parameter.
    pub fn init_global_symbol(&mut self) -> (r: Result<(), SemanticError>)
        requires
            old(self).wf(),
        ensures
            final(self).wf(),
            final(self).kinds() == old(self).kinds(),
            final(self).struct_table == old(self).struct_table,
            r is Ok <==> native_names_free(old(self).symbol_table),
            r is Ok ==> (final(self).symbol_table.declared("print"@) matches Some(sym) && sym.kind is GenericFn),
            r is Ok ==> (final(self).symbol_table.declared("Vec::new"@) matches Some(sym) && sym.kind is GenericFn),
            r is Ok ==> (final(self).symbol_table.declared("Vec::push"@) matches Some(sym) && sym.kind is GenericFn),
            r is Ok ==> (final(self).symbol_table.declared("Vec::len"@) matches Some(sym) && sym.kind is GenericFn),
    {
        proof {
            reveal_strlit("print");
            reveal_strlit("Vec::new");
            reveal_strlit("Vec::push");
            reveal_strlit("Vec::len");
            assert("print"@.len() != "Vec::new"@.len());
            assert("print"@.len() != "Vec::push"@.len());
            assert("print"@.len() != "Vec::len"@.len());
            assert("Vec::new"@.len() != "Vec::push"@.len());
            assert("Vec::len"@.len() != "Vec::push"@.len());
            assert("Vec::new"@[5] != "Vec::len"@[5]);
        }
        let ghost t0 = self.symbol_table;
        let f1 = one_param_fn();
        let ghost k1 = SymbolKind::GenericFn { func: f1 };
        let l1 = match self.symbol_table.insert_generic_fn("print", f1) {
            Ok(l) => l,
            Err(e) => {
                return Err(e);
            },
        };
        let ghost t1 = self.symbol_table;
        proof {
            t1.lemma_added_declared(&t0, "print"@, k1, TypeId(0), l1, "print"@);
            t1.lemma_added_declared(&t0, "print"@, k1, TypeId(0), l1, "Vec::new"@);
            t1.lemma_added_declared(&t0, "print"@, k1, TypeId(0), l1, "Vec::push"@);
            t1.lemma_added_declared(&t0, "print"@, k1, TypeId(0), l1, "Vec::len"@);
        }
        let f2 = one_param_fn();
        let ghost k2 = SymbolKind::GenericFn { func: f2 };
        let l2 = match self.symbol_table.insert_generic_fn("Vec::new", f2) {
            Ok(l) => l,
            Err(e) => {
                return Err(e);
            },
        };
        let ghost t2 = self.symbol_table;
        proof {
            t2.lemma_added_declared(&t1, "Vec::new"@, k2, TypeId(0), l2, "print"@);
            t2.lemma_added_declared(&t1, "Vec::new"@, k2, TypeId(0), l2, "Vec::new"@);
            t2.lemma_added_declared(&t1, "Vec::new"@, k2, TypeId(0), l2, "Vec::push"@);
            t2.lemma_added_declared(&t1, "Vec::new"@, k2, TypeId(0), l2, "Vec::len"@);
        }
        let f3 = one_param_fn();
        let ghost k3 = SymbolKind::GenericFn { func: f3 };
        let l3 = match self.symbol_table.insert_generic_fn("Vec::push", f3) {
            Ok(l) => l,
            Err(e) => {
                return Err(e);
            },
        };
        let ghost t3 = self.symbol_table;
        proof {
            t3.lemma_added_declared(&t2, "Vec::push"@, k3, TypeId(0), l3, "print"@);
            t3.lemma_added_declared(&t2, "Vec::push"@, k3, TypeId(0), l3, "Vec::new"@);
            t3.lemma_added_declared(&t2, "Vec::push"@, k3, TypeId(0), l3, "Vec::push"@);
            t3.lemma_added_declared(&t2, "Vec::push"@, k3, TypeId(0), l3, "Vec::len"@);
        }
        let f4 = one_param_fn();
        let ghost k4 = SymbolKind::GenericFn { func: f4 };
        let l4 = match self.symbol_table.insert_generic_fn("Vec::len", f4) {
            Ok(l) => l,
            Err(e) => {
                return Err(e);
            },
        };
        proof {
            self.symbol_table.lemma_added_declared(&t3, "Vec::len"@, k4, TypeId(0), l4, "print"@);
            self.symbol_table.lemma_added_declared(&t3, "Vec::len"@, k4, TypeId(0), l4, "Vec::new"@);
            self.symbol_table.lemma_added_declared(&t3, "Vec::len"@, k4, TypeId(0), l4, "Vec::push"@);
            self.symbol_table.lemma_added_declared(&t3, "Vec::len"@, k4, TypeId(0), l4, "Vec::len"@);
        }
        Ok(())
    }

    /// The location of the symbol a name stands for.
    fn location_of(&self, name: &str) -> (r: Result<Location, SemanticError>)
        ensures
            match self.symbol_table.resolved(name@) {
                Some(sym) => r == Ok::<Location, SemanticError>(sym.location),
                None => r matches Err(SemanticError::UndefinedIdent { name: n }) && n@ == name@,
            },
    {
        match self.symbol_table.lookup(name) {
            Some(sym) => Ok(sym.location),
            None => Err(SemanticError::UndefinedIdent { name: owned(name) }),
        }
    }

    /// Whether a type has a method of a name whose native function is
    /// declared; `Unsupported` for a type that is no vector, `MissFunc` for
    /// another name than `new`, `push` and `len`, `UndefinedIdent` where the
    /// native function is not declared.
    pub fn method_check(&self, this: TypeId, name: &str) -> (r: Result<(), SemanticError>)
        requires
            self.wf(),
        ensures
            r is Ok <==> method_available(self.kinds(), self.symbol_table, this, name@),
            !(kind_of(self.kinds(), this) matches Some(TypeKindView::Vec { .. })) ==> r == Err::<(), SemanticError>(
                SemanticError::Unsupported,
            ),
            (kind_of(self.kinds(), this) matches Some(TypeKindView::Vec { .. }) && method_kind(self.kinds(), this, name@)
                is None) ==> (r matches Err(SemanticError::MissFunc { name: n }) && n@ == name@),
    {
        match self.type_table.get(this) {
            Some(TypeKind::Vec { .. }) => {},
            _ => return Err(SemanticError::Unsupported),
        }
        proof {
            reveal_strlit("new");
            reveal_strlit("push");
            reveal_strlit("len");
            reveal_strlit("Vec::new");
            reveal_strlit("Vec::push");
            reveal_strlit("Vec::len");
            assert("new"@ =~= seq!['n', 'e', 'w']);
            assert("push"@ =~= seq!['p', 'u', 's', 'h']);
            assert("len"@ =~= seq!['l', 'e', 'n']);
            assert("Vec::new"@ =~= method_global(seq!['n', 'e', 'w']));
            assert("Vec::push"@ =~= method_global(seq!['p', 'u', 's', 'h']));
            assert("Vec::len"@ =~= method_global(seq!['l', 'e', 'n']));
        }
        let global = if str_eq(name, "new") {
            "Vec::new"
        } else if str_eq(name, "push") {
            "Vec::push"
        } else if str_eq(name, "len") {
            "Vec::len"
        } else {
            return Err(SemanticError::MissFunc { name: owned(name) });
        };
        self.location_of(global)?;
        Ok(())
    }

    /// The type and location of a method of a type: `new`, `push` and `len`
    /// of vectors.
    pub fn method(&mut self, this: TypeId, name: &str) -> (r: Result<(TypeId, Location), SemanticError>)
        requires
            old(self).wf(),
            method_available(old(self).kinds(), old(self).symbol_table, this, name@),
        ensures
            final(self).wf(),
            r is Ok,
            r matches Ok((t, _)) ==> 0 <= t.0 < final(self).kinds().len()
                && final(self).kinds()[t.0 as int] is NativeFunction,
            r matches Ok((t, loc)) ==> method_kind(old(self).kinds(), this, name@) == Some(final(self).kinds()[t.0 as int]),
            r matches Ok((t, loc)) ==> (old(self).symbol_table.resolved(method_global(name@)) matches Some(sym)
                && sym.location == loc),
            final(self).kinds().len() >= old(self).kinds().len(),
            extends(old(self).kinds(), final(self).kinds()),
            final(self).symbol_table == old(self).symbol_table,
            final(self).struct_table == old(self).struct_table,
    {
        let element = match self.type_table.get(this) {
            Some(TypeKind::Vec { element }) => *element,
            Some(_) => return Err(SemanticError::Unsupported),
            None => return Err(SemanticError::Unsupported),
        };
        proof {
            reveal_strlit("new");
            reveal_strlit("push");
            reveal_strlit("len");
            reveal_strlit("Vec::new");
            reveal_strlit("Vec::push");
            reveal_strlit("Vec::len");
            assert("new"@ =~= seq!['n', 'e', 'w']);
            assert("push"@ =~= seq!['p', 'u', 's', 'h']);
            assert("len"@ =~= seq!['l', 'e', 'n']);
            assert("Vec::new"@ =~= method_global(seq!['n', 'e', 'w']));
            assert("Vec::push"@ =~= method_global(seq!['p', 'u', 's', 'h']));
            assert("Vec::len"@ =~= method_global(seq!['l', 'e', 'n']));
        }
        if str_eq(name, "new") {
            let loc = self.location_of("Vec::new")?;
            let args: Vec<TypeId> = Vec::new();
            assert(args@ =~= Seq::<TypeId>::empty());
            let t = self.type_table.intern(TypeKind::NativeFunction { args, return_ty: this });
            Ok((t, loc))
        } else if str_eq(name, "push") {
            let loc = self.location_of("Vec::push")?;
            let mut args: Vec<TypeId> = Vec::new();
            args.push(this);
            args.push(element);
            assert(args@ =~= seq![this, element]);
            let t = self.type_table.intern(TypeKind::NativeFunction { args, return_ty: TypeId::nil_type() });
            Ok((t, loc))
        } else if str_eq(name, "len") {
            let loc = self.location_of("Vec::len")?;
            let mut args: Vec<TypeId> = Vec::new();
            args.push(this);
            assert(args@ =~= seq![this]);
            let t = self.type_table.intern(TypeKind::NativeFunction { args, return_ty: TypeId::int_type() });
            Ok((t, loc))
        } else {
            Err(SemanticError::MissFunc { name: owned(name) })
        }
    }

    /// The type a written type names: `Vec<T>`, one of the basic types
    /// `nil`, `bool`, `int`, `float` and `str`, or a struct.
    pub fn type_id(&mut self, ty: &ast::Type) -> (r: Result<TypeId, SemanticError>)
        requires
            old(self).wf(),
        ensures
            final(self).wf(),
            r is Ok <==> typeable(old(self).struct_table.names(), *ty),
            r matches Ok(t) ==> denotes(final(self).kinds(), final(self).struct_table.names(), *ty, t),
            r matches Ok(t) ==> 0 <= t.0 < final(self).kinds().len(),
            final(self).kinds().len() >= old(self).kinds().len(),
            forall|i: int| 0 <= i < old(self).kinds().len() ==> final(self).kinds()[i] == old(self).kinds()[i],
            final(self).symbol_table == old(self).symbol_table,
            final(self).struct_table == old(self).struct_table,
        decreases ty,
    {
        if ty.segments.len() != 1 {
            return Err(SemanticError::Unsupported);
        }
        let segment = &ty.segments[0];
        let n = segment.args.len();
        proof {
            reveal_strlit("Vec");
            reveal_strlit("nil");
            reveal_strlit("bool");
            reveal_strlit("int");
            reveal_strlit("float");
            reveal_strlit("str");
            assert("Vec"@ =~= vec_name());
            assert("nil"@ =~= seq!['n', 'i', 'l']);
            assert("bool"@ =~= seq!['b', 'o', 'o', 'l']);
            assert("int"@ =~= seq!['i', 'n', 't']);
            assert("float"@ =~= seq!['f', 'l', 'o', 'a', 't']);
            assert("str"@ =~= seq!['s', 't', 'r']);
        }
        if str_eq(segment.ident.as_str(), "Vec") {
            if n != 1 {
                return Err(SemanticError::Unsupported);
            }
            proof {
                assert(decreases_to!(*ty => segment.args@[0]));
            }
            let element = self.type_id(&segment.args[0])?;
            let ghost before = self.kinds();
            let t = self.type_table.intern(TypeKind::Vec { element });
            proof {
                lemma_denotes_extends(before, self.kinds(), self.struct_table.names(), segment.args@[0], element);
            }
            Ok(t)
        } else {
            if n != 0 {
                return Err(SemanticError::Unsupported);
            }
            let name = segment.ident.as_str();
            let kind = if str_eq(name, "nil") {
                TypeKind::Nil
            } else if str_eq(name, "bool") {
                TypeKind::Bool
            } else if str_eq(name, "int") {
                TypeKind::Int
            } else if str_eq(name, "float") {
                TypeKind::Float
            } else if str_eq(name, "str") {
                TypeKind::String
            } else {
                match self.struct_table.id(name) {
                    Some(id) => TypeKind::Struct(id),
                    None => return Err(SemanticError::UnknownType { name: owned(name) }),
                }
            };
            Ok(self.type_table.intern(kind))
        }
    }
}

/// A generic function of one parameter, of any type, returning nothing.
fn one_param_fn() -> (f: GenericFn)
    ensures
        f.args@ == seq![TypeSlot::Dyn(GenericSlot(0))],
        f.return_ty is None,
{
    let mut args: Vec<TypeSlot> = Vec::new();
    args.push(TypeSlot::Dyn(GenericSlot(0)));
    GenericFn { args, return_ty: None }
}

/// Analyses the segments of a path: each keeps its name, and its type
/// arguments become types.
pub fn analysis_path(semantic: &mut Semantic, segments: &Vec<ast::PathSegment>) -> (r: Result<
    Vec<type_ast::PathSegment>,
    SemanticError,
>)
    requires
        old(semantic).wf(),
    ensures
        final(semantic).wf(),
        final(semantic).kinds().len() >= old(semantic).kinds().len(),
        extends(old(semantic).kinds(), final(semantic).kinds()),
        final(semantic).symbol_table == old(semantic).symbol_table,
        final(semantic).struct_table == old(semantic).struct_table,
        r is Ok <==> forall|i: int, j: int|
            0 <= i < segments@.len() && 0 <= j < segments@[i].args@.len() ==> typeable(
                old(semantic).struct_table.names(),
                #[trigger] segments@[i].args@[j],
            ),
        r matches Ok(v) ==> v@.len() == segments@.len() && forall|i: int|
            0 <= i < v@.len() ==> (#[trigger] v@[i]).ident@ == segments@[i].ident@ && v@[i].args@.len()
                == segments@[i].args@.len(),
        r matches Ok(v) ==> forall|i: int, j: int|
            0 <= i < segments@.len() && 0 <= j < segments@[i].args@.len() ==> denotes(
                final(semantic).kinds(),
                final(semantic).struct_table.names(),
                #[trigger] segments@[i].args@[j],
                v@[i].args@[j],
            ),
{
    let ghost names = semantic.struct_table.names();
    let mut type_segments: Vec<type_ast::PathSegment> = Vec::new();
    let mut i: usize = 0;
    while i < segments.len()
        invariant
            semantic.wf(),
            semantic.kinds().len() >= old(semantic).kinds().len(),
            extends(old(semantic).kinds(), semantic.kinds()),
            semantic.symbol_table == old(semantic).symbol_table,
            semantic.struct_table == old(semantic).struct_table,
            names == semantic.struct_table.names(),
            i <= segments@.len(),
            type_segments@.len() == i,
            forall|k: int|
                0 <= k < i ==> (#[trigger] type_segments@[k]).ident@ == segments@[k].ident@
                    && type_segments@[k].args@.len() == segments@[k].args@.len(),
            forall|k: int, m: int|
                0 <= k < i && 0 <= m < segments@[k].args@.len() ==> typeable(names, #[trigger] segments@[k].args@[m])
                    && denotes(semantic.kinds(), names, segments@[k].args@[m], type_segments@[k].args@[m]),
        decreases segments@.len() - i,
    {
        let segment = &segments[i];
        let ghost k_seg = semantic.kinds();
        let mut type_args: Vec<TypeId> = Vec::new();
        let mut j: usize = 0;
        while j < segment.args.len()
            invariant
                semantic.wf(),
                semantic.kinds().len() >= old(semantic).kinds().len(),
                extends(old(semantic).kinds(), semantic.kinds()),
                extends(k_seg, semantic.kinds()),
                i < segments@.len(),
                *segment == segments@[i as int],
                semantic.symbol_table == old(semantic).symbol_table,
                semantic.struct_table == old(semantic).struct_table,
                names == semantic.struct_table.names(),
                j <= segment.args@.len(),
                type_args@.len() == j,
                forall|m: int|
                    0 <= m < j ==> typeable(names, #[trigger] segment.args@[m]) && denotes(
                        semantic.kinds(),
                        names,
                        segment.args@[m],
                        type_args@[m],
                    ),
            decreases segment.args@.len() - j,
        {
            let ghost before = semantic.kinds();
            let t = match semantic.type_id(&segment.args[j]) {
                Ok(t) => t,
                Err(e) => {
                    assert(!typeable(names, segments@[i as int].args@[j as int]));
                    return Err(e);
                },
            };
            proof {
                assert forall|m: int| 0 <= m < j implies typeable(names, #[trigger] segment.args@[m]) && denotes(
                    semantic.kinds(),
                    names,
                    segment.args@[m],
                    type_args@[m],
                ) by {
                    lemma_denotes_extends(before, semantic.kinds(), names, segment.args@[m], type_args@[m]);
                }
            }
            type_args.push(t);
            j = j + 1;
        }
        let ghost prev = type_segments@;
        type_segments.push(type_ast::PathSegment { ident: segment.ident.clone(), args: type_args });
        proof {
            assert forall|k: int, m: int|
                0 <= k < i + 1 && 0 <= m < segments@[k].args@.len() implies typeable(
                names,
                #[trigger] segments@[k].args@[m],
            ) && denotes(semantic.kinds(), names, segments@[k].args@[m], type_segments@[k].args@[m]) by {
                if k < i {
                    assert(type_segments@[k] == prev[k]);
                    lemma_denotes_extends(k_seg, semantic.kinds(), names, segments@[k].args@[m], prev[k].args@[m]);
                }
            }
        }
        i = i + 1;
    }
    Ok(type_segments)
}

/// The type of a literal.
fn literal_type_exec(l: &Literal) -> (t: TypeId)
    ensures
        t == literal_type(*l),
{
    match l {
        Literal::Nil => TypeId::nil_type(),
        Literal::Bool(_) => TypeId::bool_type(),
        Literal::Int(_) => TypeId::int_type(),
        Literal::Float(_) => TypeId::float_type(),
        Literal::String(_) => TypeId::string_type(),
    }
}

/// The position of the last field with a name.
fn field_offset(fields: &Vec<type_ast::Field>, name: &str) -> (r: Option<usize>)
    ensures
        match r {
            Some(i) => last_index(fields@.map_values(|f: type_ast::Field| f.name@), name@) == Some(i as int),
            None => last_index(fields@.map_values(|f: type_ast::Field| f.name@), name@) is None,
        },
{
    let ghost names = fields@.map_values(|f: type_ast::Field| f.name@);
    let mut j: usize = fields.len();
    while j > 0
        invariant
            j <= fields@.len(),
            names == fields@.map_values(|f: type_ast::Field| f.name@),
            forall|i: int| j <= i < fields@.len() ==> names[i] != name@,
        decreases j,
    {
        if str_eq(fields[j - 1].name.as_str(), name) {
            proof {
                let c = choose|c: int|
                    0 <= c < names.len() && names[c] == name@ && forall|k: int| c < k < names.len() ==> names[k] != name@;
                assert(names[j - 1] == name@);
                if c > j - 1 {
                    assert(names[c] != name@);
                }
                if c < j - 1 {
                    assert(names[j - 1] != name@);
                }
            }
            return Some(j - 1);
        }
        j = j - 1;
    }
    None
}

/// The position of the first field with a name.
fn first_field_offset(fields: &Vec<type_ast::Field>, name: &str) -> (r: Option<usize>)
    ensures
        match r {
            Some(i) => first_index(fields@.map_values(|f: type_ast::Field| f.name@), name@) == Some(i as int),
            None => first_index(fields@.map_values(|f: type_ast::Field| f.name@), name@) is None,
        },
{
    let ghost names = fields@.map_values(|f: type_ast::Field| f.name@);
    let mut j: usize = 0;
    while j < fields.len()
        invariant
            j <= fields@.len(),
            names == fields@.map_values(|f: type_ast::Field| f.name@),
            forall|i: int| 0 <= i < j ==> names[i] != name@,
        decreases fields@.len() - j,
    {
        if str_eq(fields[j].name.as_str(), name) {
            proof {
                let c = choose|c: int|
                    0 <= c < names.len() && names[c] == name@ && forall|k: int| 0 <= k < c ==> names[k] != name@;
                assert(names[j as int] == name@);
                if c > j {
                    assert(names[j as int] != name@);
                }
                if c < j {
                    assert(names[c] != name@);
                }
            }
            return Some(j);
        }
        j = j + 1;
    }
    None
}

/// Whether a name is among names.
fn has_name(names: &Vec<String>, name: &str) -> (b: bool)
    ensures
        b == exists|i: int| 0 <= i < names@.len() && names@[i]@ == name@,
{
    let mut j: usize = 0;
    while j < names.len()
        invariant
            j <= names@.len(),
            forall|i: int| 0 <= i < j ==> names@[i]@ != name@,
        decreases names@.len() - j,
    {
        if str_eq(names[j].as_str(), name) {
            return true;
        }
        j = j + 1;
    }
    false
}

/// Analyses an expression: gives each part its type and each name its
/// location, and checks the typing rules.
pub fn analysis_expr(semantic: &mut Semantic, expr: &ast::Expr) -> (r: Result<type_ast::Expr, SemanticError>)
    requires
        old(semantic).wf(),
    ensures
        final(semantic).wf(),
        final(semantic).kinds().len() >= old(semantic).kinds().len(),
        extends(old(semantic).kinds(), final(semantic).kinds()),
        final(semantic).symbol_table == old(semantic).symbol_table,
        final(semantic).struct_table == old(semantic).struct_table,
        r matches Ok(te) ==> typed(
            final(semantic).kinds(),
            final(semantic).struct_table.defs(),
            final(semantic).symbol_table,
            *expr,
            te,
        ),
        *expr is Literal ==> r is Ok,
        plain_expr(*expr) ==> (r is Ok <==> plain_type(old(semantic).symbol_table, *expr) is Some),
        (*expr matches ast::Expr::Struct { struct_ty, fields } && plain_struct_lit(
            old(semantic).symbol_table,
            old(semantic).struct_table.defs(),
            struct_ty,
            fields@,
        )) ==> r is Ok,
        plain_expr(*expr) ==> (r matches Ok(te) ==> plain_type(old(semantic).symbol_table, *expr) == Some(
            te.spec_ty(),
        )),
        expr matches ast::Expr::Binary { left, op, right } ==> (plain_expr(**left) && plain_expr(**right) ==> match (
            plain_type(old(semantic).symbol_table, **left),
            plain_type(old(semantic).symbol_table, **right),
        ) {
            (Some(a), Some(b)) => if a == b && ((*op == BinaryOp::And || *op == BinaryOp::Or) ==> a == TypeId(1)) {
                r matches Ok(te) && te.spec_ty() == binary_type(*op, a)
            } else {
                r == Err::<type_ast::Expr, SemanticError>(SemanticError::TypeMistmatch)
            },
            _ => true,
        }),
        expr matches ast::Expr::Path { segments } ==> (r is Ok <==> (segments@.len() == 1
            && segments@[0].args@.len() == 0 && (old(semantic).symbol_table.resolved(segments@[0].ident@) matches Some(
            sym,
        ) && sym.kind is Normal))),
        expr matches ast::Expr::Path { segments } ==> (segments@.len() == 1 && segments@[0].args@.len() == 0 ==> match old(
            semantic,
        ).symbol_table.resolved(segments@[0].ident@) {
            Some(sym) => sym.kind is GenericFn ==> r == Err::<type_ast::Expr, SemanticError>(
                SemanticError::TypeMistmatch,
            ),
            None => r matches Err(SemanticError::UndefinedIdent { name }) && name@ == segments@[0].ident@,
        }),
    decreases expr,
{
    let ghost structs = semantic.struct_table.defs();
    let ghost symbols = semantic.symbol_table;
    match expr {
        ast::Expr::Literal(literal) => {
            let ty = literal_type_exec(literal);
            Ok(type_ast::Expr::Literal { value: literal.duplicate(), ty })
        },
        ast::Expr::Unary { op, expr: inner } => {
            let e = analysis_expr(semantic, inner)?;
            let ty = *e.ty();
            Ok(type_ast::Expr::Unary { op: *op, expr: Box::new(e), ty })
        },
        ast::Expr::Binary { left, op, right } => {
            let l = analysis_expr(semantic, left)?;
            let ghost k1 = semantic.kinds();
            let r = analysis_expr(semantic, right)?;
            proof {
                lemma_typed_extends(k1, semantic.kinds(), structs, symbols, **left, l);
            }
            let lt = *l.ty();
            if lt != *r.ty() {
                return Err(SemanticError::TypeMistmatch);
            }
            let ty = match op {
                BinaryOp::Equal | BinaryOp::NotEqual | BinaryOp::Less | BinaryOp::LessEqual
                | BinaryOp::Greater | BinaryOp::GreaterEqual => TypeId::bool_type(),
                BinaryOp::And | BinaryOp::Or => {
                    if lt != TypeId::bool_type() {
                        return Err(SemanticError::TypeMistmatch);
                    }
                    TypeId::bool_type()
                },
                _ => lt,
            };
            Ok(type_ast::Expr::Binary { left: Box::new(l), op: *op, right: Box::new(r), ty })
        },
        ast::Expr::Call { func, args } => {
            let mut typed_args: Vec<type_ast::Expr> = Vec::new();
            let mut i: usize = 0;
            while i < args.len()
                invariant
                    semantic.wf(),
                    semantic.kinds().len() >= old(semantic).kinds().len(),
                    extends(old(semantic).kinds(), semantic.kinds()),
                    semantic.symbol_table == old(semantic).symbol_table,
                    semantic.struct_table == old(semantic).struct_table,
                    structs == semantic.struct_table.defs(),
                    symbols == semantic.symbol_table,
                    i <= args@.len(),
                    typed_args@.len() == i,
                    forall|k: int|
                        0 <= k < i ==> typed(semantic.kinds(), structs, symbols, #[trigger] args@[k], typed_args@[k]),
                    *expr is Call && expr->Call_args == *args,
                decreases args@.len() - i,
            {
                proof {
                    assert(decreases_to!(*expr => args@[i as int]));
                }
                let ghost k0 = semantic.kinds();
                let a = analysis_expr(semantic, &args[i])?;
                proof {
                    assert forall|k: int| 0 <= k < i implies typed(
                        semantic.kinds(),
                        structs,
                        symbols,
                        #[trigger] args@[k],
                        typed_args@[k],
                    ) by {
                        lemma_typed_extends(k0, semantic.kinds(), structs, symbols, args@[k], typed_args@[k]);
                    }
                }
                typed_args.push(a);
                i = i + 1;
            }
            let ghost k_args = semantic.kinds();
            let ghost args_typed = typed_args@;
            let typed_func = match &**func {
                ast::Expr::Path { segments } => {
                    if segments.len() == 0 {
                        return Err(SemanticError::EmptyTypeSegments);
                    }
                    let type_segments = analysis_path(semantic, segments)?;
                    let name = segments[0].ident.as_str();
                    let found: Option<(Location, Option<TypeId>, Option<TypeKind>)> = match semantic.symbol_table.lookup(name) {
                        Some(symbol) => match &symbol.kind {
                            SymbolKind::Normal { type_id } => Some((symbol.location, Some(*type_id), None)),
                            SymbolKind::GenericFn { func: generic } => {
                                if segments.len() != 1 || segments[0].args.len() != 0 {
                                    return Err(SemanticError::Unsupported);
                                }
                                let mut input: Vec<TypeId> = Vec::new();
                                let mut k: usize = 0;
                                while k < typed_args.len()
                                    invariant
                                        k <= typed_args@.len(),
                                    decreases typed_args@.len() - k,
                                {
                                    input.push(*typed_args[k].ty());
                                    k = k + 1;
                                }
                                if !fits_exec(&generic.args, generic.return_ty, input.as_slice()) {
                                    return Err(SemanticError::TypeMistmatch);
                                }
                                let kind = generic.monomorphization(input.as_slice())?;
                                Some((symbol.location, None, Some(kind)))
                            },
                        },
                        None => None,
                    };
                    let (location, ty) = match found {
                        Some((location, Some(t), _)) => (location, t),
                        Some((location, None, Some(kind))) => (location, semantic.type_table.intern(kind)),
                        Some((_, None, None)) => return Err(SemanticError::Unsupported),
                        None => {
                            if segments.len() == 2 {
                                let mut head: Vec<ast::PathSegment> = Vec::new();
                                head.push(segments[0].duplicate());
                                let this = semantic.type_id(&ast::Type { segments: head })?;
                                if segments[1].args.len() != 0 {
                                    return Err(SemanticError::Unsupported);
                                }
                                semantic.method_check(this, segments[1].ident.as_str())?;
                                let (t, l) = semantic.method(this, segments[1].ident.as_str())?;
                                (l, t)
                            } else {
                                return Err(SemanticError::UndefinedIdent { name: owned(name) });
                            }
                        },
                    };
                    type_ast::Expr::Path { segments: type_segments, location, ty }
                },
                ast::Expr::Member { target, member } => {
                    proof {
                        assert(decreases_to!(*expr => **target));
                    }
                    let t = analysis_expr(semantic, target)?;
                    let ghost k_t = semantic.kinds();
                    let this = *t.ty();
                    semantic.method_check(this, member.as_str())?;
                    let (method_ty, location) = semantic.method(this, member.as_str())?;
                    proof {
                        lemma_typed_extends(k_t, semantic.kinds(), structs, symbols, **target, t);
                    }
                    typed_args.insert(0, t);
                    type_ast::Expr::Method { this_ty: this, method_name: member.clone(), method_ty, location }
                },
                _ => analysis_expr(semantic, func)?,
            };
            proof {
                assert forall|k: int| 0 <= k < args@.len() implies typed(
                    semantic.kinds(),
                    structs,
                    symbols,
                    #[trigger] args@[k],
                    args_typed[k],
                ) by {
                    lemma_typed_extends(k_args, semantic.kinds(), structs, symbols, args@[k], args_typed[k]);
                }
            }
            let (params, return_ty) = match semantic.type_table.get(*typed_func.ty()) {
                Some(kind) => match kind.as_callable() {
                    Some((params, ret)) => {
                        let mut v: Vec<TypeId> = Vec::new();
                        let mut k: usize = 0;
                        while k < params.len()
                            invariant
                                k <= params@.len(),
                                v@ == params@.take(k as int),
                            decreases params@.len() - k,
                        {
                            v.push(params[k]);
                            k = k + 1;
                        }
                        proof {
                            assert(params@.take(k as int) =~= params@);
                        }
                        (v, ret)
                    },
                    None => return Err(SemanticError::TypeMistmatch),
                },
                None => return Err(SemanticError::Unsupported),
            };
            if params.len() != typed_args.len() {
                return Err(SemanticError::TypeMistmatch);
            }
            let mut k: usize = 0;
            while k < params.len()
                invariant
                    semantic.wf(),
                    semantic.kinds().len() >= old(semantic).kinds().len(),
                    extends(old(semantic).kinds(), semantic.kinds()),
                    semantic.symbol_table == old(semantic).symbol_table,
                    semantic.struct_table == old(semantic).struct_table,
                    k <= params@.len(),
                    params@.len() == typed_args@.len(),
                    forall|j: int| 0 <= j < k ==> #[trigger] typed_args@[j].spec_ty() == params@[j],
                    *expr is Call,
                decreases params@.len() - k,
            {
                if *typed_args[k].ty() != params[k] {
                    return Err(SemanticError::TypeMistmatch);
                }
                k = k + 1;
            }
            Ok(type_ast::Expr::Call { func: Box::new(typed_func), args: typed_args, ty: return_ty })
        },
        ast::Expr::Index { target, index } => {
            let t = analysis_expr(semantic, target)?;
            let ghost k1 = semantic.kinds();
            let idx = analysis_expr(semantic, index)?;
            proof {
                lemma_typed_extends(k1, semantic.kinds(), structs, symbols, **target, t);
            }
            if *idx.ty() != TypeId::int_type() {
                return Err(SemanticError::IndexTypeMismatch);
            }
            let ty = match semantic.type_table.get(*t.ty()) {
                Some(TypeKind::Vec { element }) => *element,
                _ => return Err(SemanticError::Unsupported),
            };
            Ok(type_ast::Expr::Index { target: Box::new(t), index: Box::new(idx), ty })
        },
        ast::Expr::Member { target, member } => {
            let t = analysis_expr(semantic, target)?;
            let (offset, member_ty) = match semantic.type_table.get(*t.ty()) {
                Some(TypeKind::Struct(id)) => match semantic.struct_table.get(*id) {
                    Some(def) => match first_field_offset(&def.fields, member.as_str()) {
                        Some(k) => (k, def.fields[k].type_),
                        None => {
                            return Err(
                                SemanticError::UnknownField {
                                    struct_name: def.name.clone(),
                                    field_name: member.clone(),
                                },
                            )
                        },
                    },
                    None => return Err(SemanticError::Unsupported),
                },
                _ => return Err(SemanticError::Unsupported),
            };
            Ok(type_ast::Expr::Member { target: Box::new(t), member: member.clone(), offset, member_ty })
        },
        ast::Expr::Struct { struct_ty, fields } => {
            let ghost lit_ok = plain_struct_lit(symbols, structs, *struct_ty, fields@);
            proof {
                semantic.struct_table.lemma_names_are_def_names();
            }
            let ty = semantic.type_id(struct_ty)?;
            let id = match semantic.type_table.get(ty) {
                Some(TypeKind::Struct(id)) => *id,
                _ => return Err(SemanticError::Unsupported),
            };
            let ghost k_ty = semantic.kinds();
            let ghost id_spec = first_index(struct_def_names(structs), struct_ty.segments@[0].ident@);
            proof {
                assert(semantic.struct_table.names() =~= struct_def_names(structs));
                if lit_ok {
                    let i = id_spec->0;
                    assert(0 <= i < struct_def_names(structs).len());
                    assert(kind_of(semantic.kinds(), ty) == Some(TypeKindView::Struct(StructId(i as u64))));
                }
            }
            assert(lit_ok ==> id_spec == Some(id.0 as int));
            let mut type_fields: Vec<type_ast::FieldAssign> = Vec::new();
            let mut init_fields: Vec<String> = Vec::new();
            let mut i: usize = 0;
            while i < fields.len()
                invariant
                    semantic.wf(),
                    semantic.kinds().len() >= old(semantic).kinds().len(),
                    extends(old(semantic).kinds(), semantic.kinds()),
                    extends(k_ty, semantic.kinds()),
                    kind_of(k_ty, ty) == Some(TypeKindView::Struct(id)),
                    semantic.symbol_table == old(semantic).symbol_table,
                    semantic.struct_table == old(semantic).struct_table,
                    structs == semantic.struct_table.defs(),
                    symbols == semantic.symbol_table,
                    i <= fields@.len(),
                    type_fields@.len() == i,
                    init_fields@.len() == i,
                    *expr is Struct && expr->Struct_fields == *fields,
                    forall|k: int|
                        0 <= k < i ==> {
                            &&& (#[trigger] type_fields@[k]).name@ == fields@[k].name@
                            &&& id.0 < structs.len()
                            &&& last_index(field_names(structs[id.0 as int]), fields@[k].name@) == Some(
                                type_fields@[k].offset as int,
                            )
                            &&& typed(semantic.kinds(), structs, symbols, fields@[k].expr, type_fields@[k].expr)
                        },
                    forall|k: int| 0 <= k < i ==> (#[trigger] init_fields@[k])@ == fields@[k].name@,
                    forall|k: int, m: int|
                        0 <= k < m < i ==> (#[trigger] fields@[k]).name@ != (#[trigger] fields@[m]).name@,
                    *expr == (ast::Expr::Struct { struct_ty: *struct_ty, fields: *fields }),
                    lit_ok == plain_struct_lit(symbols, structs, *struct_ty, fields@),
                    symbols == old(semantic).symbol_table,
                    structs == old(semantic).struct_table.defs(),
                    lit_ok ==> id_spec == Some(id.0 as int),
                    id_spec == first_index(struct_def_names(structs), struct_ty.segments@[0].ident@),
                decreases fields@.len() - i,
            {
                proof {
                    assert(decreases_to!(*expr => fields@[i as int].expr));
                }
                let ghost k0 = semantic.kinds();
                let e = analysis_expr(semantic, &fields[i].expr)?;
                proof {
                    assert forall|k: int| 0 <= k < i implies typed(
                        semantic.kinds(),
                        structs,
                        symbols,
                        fields@[k].expr,
                        (#[trigger] type_fields@[k]).expr,
                    ) by {
                        lemma_typed_extends(k0, semantic.kinds(), structs, symbols, fields@[k].expr, type_fields@[k].expr);
                    }
                }
                let name = fields[i].name.as_str();
                let ghost tf_before = type_fields@;
                proof {
                    if lit_ok {
                        assert(init_names(fields@)[i as int] == name@);
                        assert(field_names(structs[id.0 as int]).contains(init_names(fields@)[i as int]));
                        lemma_last_index_some(field_names(structs[id.0 as int]), name@);
                        assert forall|k: int| 0 <= k < i implies init_fields@[k]@ != name@ by {
                            assert(init_names(fields@)[k] == fields@[k].name@);
                        }
                    }
                }
                let (offset, struct_name) = match semantic.struct_table.get(id) {
                    Some(def) => {
                        let off = field_offset(&def.fields, name);
                        proof {
                            assert(*def == structs[id.0 as int]);
                            assert(def.fields@.map_values(|f: type_ast::Field| f.name@) == field_names(
                                structs[id.0 as int],
                            ));
                            assert(name@ == fields@[i as int].name@);
                        }
                        (off, def.name.clone())
                    },
                    None => return Err(SemanticError::Unsupported),
                };
                if has_name(&init_fields, name) {
                    return Err(SemanticError::DuplicateFieldInit { struct_name, field_name: owned(name) });
                }
                let ghost inits_before = init_fields@;
                init_fields.push(owned(name));
                let offset = match offset {
                    Some(k) => k,
                    None => return Err(SemanticError::UnknownField { struct_name, field_name: owned(name) }),
                };
                type_fields.push(type_ast::FieldAssign { name: owned(name), offset, expr: e });
                proof {
                    assert forall|k: int| 0 <= k < i + 1 implies {
                        &&& (#[trigger] type_fields@[k]).name@ == fields@[k].name@
                        &&& id.0 < structs.len()
                        &&& last_index(field_names(structs[id.0 as int]), fields@[k].name@) == Some(
                            type_fields@[k].offset as int,
                        )
                        &&& typed(semantic.kinds(), structs, symbols, fields@[k].expr, type_fields@[k].expr)
                    } by {
                        if k < i {
                            assert(type_fields@[k] == tf_before[k]);
                        }
                    }
                    assert forall|k: int, m: int| 0 <= k < m < i + 1 implies (#[trigger] fields@[k]).name@
                        != (#[trigger] fields@[m]).name@ by {
                        if m == i {
                            assert(inits_before[k]@ == fields@[k].name@);
                        }
                    }
                }
                i = i + 1;
            }
            match semantic.struct_table.get(id) {
                Some(def) => {
                    let mut k: usize = 0;
                    while k < def.fields.len()
                        invariant
                        semantic.wf(),
                        semantic.kinds().len() >= old(semantic).kinds().len(),
                        extends(old(semantic).kinds(), semantic.kinds()),
                        semantic.symbol_table == old(semantic).symbol_table,
                        semantic.struct_table == old(semantic).struct_table,
                            k <= def.fields@.len(),
                            init_fields@.len() == fields@.len(),
                            forall|j: int| 0 <= j < fields@.len() ==> (#[trigger] init_fields@[j])@ == fields@[j].name@,
                            forall|n: int|
                                0 <= n < k ==> init_names(fields@).contains((#[trigger] def.fields@[n]).name@),
                            *expr is Struct,
                            *expr == (ast::Expr::Struct { struct_ty: *struct_ty, fields: *fields }),
                            lit_ok == plain_struct_lit(symbols, structs, *struct_ty, fields@),
                            symbols == old(semantic).symbol_table,
                            structs == old(semantic).struct_table.defs(),
                            lit_ok ==> id_spec == Some(id.0 as int),
                            lit_ok ==> *def == structs[id.0 as int],
                            id_spec == first_index(struct_def_names(structs), struct_ty.segments@[0].ident@),
                        decreases def.fields@.len() - k,
                    {
                        proof {
                            if lit_ok {
                                assert(field_names(structs[id.0 as int])[k as int] == def.fields@[k as int].name@);
                                let j = choose|j: int| 0 <= j < init_names(fields@).len() && init_names(fields@)[j]
                                    == def.fields@[k as int].name@;
                                assert(init_fields@[j]@ == def.fields@[k as int].name@);
                            }
                        }
                        if !has_name(&init_fields, def.fields[k].name.as_str()) {
                            return Err(
                                SemanticError::MissFieldInit {
                                    struct_name: def.name.clone(),
                                    field_name: def.fields[k].name.clone(),
                                },
                            );
                        }
                        proof {
                            let j = choose|j: int| 0 <= j < init_fields@.len() && init_fields@[j]@ == def.fields@[k as int].name@;
                            assert(init_names(fields@)[j] == fields@[j].name@);
                        }
                        k = k + 1;
                    }
                    if init_fields.len() != def.fields.len() {
                        return Err(SemanticError::Unsupported);
                    }
                },
                None => return Err(SemanticError::Unsupported),
            }
            Ok(type_ast::Expr::Struct { struct_ty: ty, fields: type_fields })
        },
        ast::Expr::Path { segments } => {
            let type_segments = analysis_path(semantic, segments)?;
            if segments.len() != 1 || segments[0].args.len() != 0 {
                return Err(SemanticError::Unsupported);
            }
            let name = segments[0].ident.as_str();
            match semantic.symbol_table.lookup(name) {
                Some(symbol) => match symbol.ty() {
                    Some(ty) => Ok(type_ast::Expr::Path { segments: type_segments, location: symbol.location, ty }),
                    None => Err(SemanticError::TypeMistmatch),
                },
                None => Err(SemanticError::UndefinedIdent { name: owned(name) }),
            }
        },
    }
}

/// A typed block has the statements of the block it was made from, in
/// order and of the same kinds: every condition is a boolean, a `return`
/// gives a value of the function's return type (none where it has none),
/// and nested blocks, branches and loop bodies are checked alike.
pub open spec fn block_checked(b: ast::Block, tb: type_ast::Block, ret: Option<TypeId>) -> bool
    decreases b,
{
    &&& tb.statements@.len() == b.statements@.len()
    &&& forall|k: int|
        0 <= k < b.statements@.len() ==> stmt_checked(#[trigger] b.statements@[k], tb.statements@[k], ret)
}

/// A typed statement is of the kind of the statement it was made from, by
/// the rules of `block_checked`.
pub open spec fn stmt_checked(s: ast::BlockStmt, ts: type_ast::BlockStmt, ret: Option<TypeId>) -> bool
    decreases s,
{
    match s {
        ast::BlockStmt::Let(l) => match ts {
            type_ast::BlockStmt::Let(tl) => tl.var_name@ == l.var_name@,
            _ => false,
        },
        ast::BlockStmt::Assign(_) => ts is Assign,
        ast::BlockStmt::Return(r) => match ts {
            type_ast::BlockStmt::Return(tr) => match tr.expr {
                Some(e) => r.expr is Some && ret == Some(e.spec_ty()),
                None => r.expr is None && ret is None,
            },
            _ => false,
        },
        ast::BlockStmt::Expr(_) => ts is Expr,
        ast::BlockStmt::Block(b) => match ts {
            type_ast::BlockStmt::Block(tb) => block_checked(*b, *tb, ret),
            _ => false,
        },
        ast::BlockStmt::If(i) => match ts {
            type_ast::BlockStmt::If(ti) => {
                &&& ti.condition.spec_ty() == TypeId(1)
                &&& block_checked(*i.then_branch, *ti.then_branch, ret)
                &&& match i.else_branch {
                    Some(e) => match ti.else_branch {
                        Some(te) => block_checked(*e, *te, ret),
                        None => false,
                    },
                    None => ti.else_branch is None,
                }
            },
            _ => false,
        },
        ast::BlockStmt::While(w) => match ts {
            type_ast::BlockStmt::While(tw) => tw.condition.spec_ty() == TypeId(1) && block_checked(
                *w.block,
                *tw.block,
                ret,
            ),
            _ => false,
        },
        ast::BlockStmt::Break => ts is Break,
        ast::BlockStmt::Continue => ts is Continue,
    }
}

/// An expression is typed by the rules of `typed` under the names in scope
/// at some point.
pub open spec fn typed_in_scope(
    kinds: Seq<TypeKindView>,
    structs: Seq<type_ast::StructDef>,
    e: ast::Expr,
    te: type_ast::Expr,
) -> bool {
    exists|symbols: SymbolTable| typed(kinds, structs, symbols, e, te)
}

/// Every expression of a typed block is a typing of the expression it was
/// made from, under the names in scope where it stands.
pub open spec fn block_exprs_typed(
    b: ast::Block,
    tb: type_ast::Block,
    kinds: Seq<TypeKindView>,
    structs: Seq<type_ast::StructDef>,
) -> bool
    decreases b,
{
    &&& tb.statements@.len() == b.statements@.len()
    &&& forall|k: int|
        0 <= k < b.statements@.len() ==> stmt_exprs_typed(
            #[trigger] b.statements@[k],
            tb.statements@[k],
            kinds,
            structs,
        )
}

/// Every expression of a typed statement is a typing of the expression it
/// was made from; a target and the value assigned to it under the same
/// names.
pub open spec fn stmt_exprs_typed(
    s: ast::BlockStmt,
    ts: type_ast::BlockStmt,
    kinds: Seq<TypeKindView>,
    structs: Seq<type_ast::StructDef>,
) -> bool
    decreases s,
{
    match s {
        ast::BlockStmt::Let(l) => match ts {
            type_ast::BlockStmt::Let(tl) => typed_in_scope(kinds, structs, l.expr, tl.expr),
            _ => false,
        },
        ast::BlockStmt::Assign(a) => match ts {
            type_ast::BlockStmt::Assign(ta) => exists|symbols: SymbolTable|
                typed(kinds, structs, symbols, a.target, ta.target) && typed(kinds, structs, symbols, a.expr, ta.expr),
            _ => false,
        },
        ast::BlockStmt::Return(r) => match ts {
            type_ast::BlockStmt::Return(tr) => match r.expr {
                Some(e) => tr.expr matches Some(te) && typed_in_scope(kinds, structs, e, te),
                None => tr.expr is None,
            },
            _ => false,
        },
        ast::BlockStmt::Expr(e) => match ts {
            type_ast::BlockStmt::Expr(te) => typed_in_scope(kinds, structs, e, te),
            _ => false,
        },
        ast::BlockStmt::Block(b) => match ts {
            type_ast::BlockStmt::Block(tb) => block_exprs_typed(*b, *tb, kinds, structs),
            _ => false,
        },
        ast::BlockStmt::If(i) => match ts {
            type_ast::BlockStmt::If(ti) => {
                &&& typed_in_scope(kinds, structs, *i.condition, *ti.condition)
                &&& block_exprs_typed(*i.then_branch, *ti.then_branch, kinds, structs)
                &&& match i.else_branch {
                    Some(e) => match ti.else_branch {
                        Some(te) => block_exprs_typed(*e, *te, kinds, structs),
                        None => false,
                    },
                    None => ti.else_branch is None,
                }
            },
            _ => false,
        },
        ast::BlockStmt::While(w) => match ts {
            type_ast::BlockStmt::While(tw) => typed_in_scope(kinds, structs, *w.condition, *tw.condition)
                && block_exprs_typed(*w.block, *tw.block, kinds, structs),
            _ => false,
        },
        ast::BlockStmt::Break => ts is Break,
        ast::BlockStmt::Continue => ts is Continue,
    }
}

/// A typing under some names stays one when the kinds grow.
proof fn lemma_typed_in_scope_extends(
    k1: Seq<TypeKindView>,
    k2: Seq<TypeKindView>,
    structs: Seq<type_ast::StructDef>,
    e: ast::Expr,
    te: type_ast::Expr,
)
    requires
        typed_in_scope(k1, structs, e, te),
        extends(k1, k2),
    ensures
        typed_in_scope(k2, structs, e, te),
{
    let symbols = choose|symbols: SymbolTable| typed(k1, structs, symbols, e, te);
    lemma_typed_extends(k1, k2, structs, symbols, e, te);
}

/// The typings of the expressions of a block stay typings when the kinds
/// grow.
proof fn lemma_block_exprs_extends(
    b: ast::Block,
    tb: type_ast::Block,
    k1: Seq<TypeKindView>,
    k2: Seq<TypeKindView>,
    structs: Seq<type_ast::StructDef>,
)
    requires
        block_exprs_typed(b, tb, k1, structs),
        extends(k1, k2),
    ensures
        block_exprs_typed(b, tb, k2, structs),
    decreases b, 1int,
{
    assert forall|k: int| 0 <= k < b.statements@.len() implies stmt_exprs_typed(
        #[trigger] b.statements@[k],
        tb.statements@[k],
        k2,
        structs,
    ) by {
        assert(decreases_to!(b => b.statements@[k]));
        lemma_stmt_exprs_extends(b.statements@[k], tb.statements@[k], k1, k2, structs);
    }
}

/// The typings of the expressions of a statement stay typings when the
/// kinds grow.
proof fn lemma_stmt_exprs_extends(
    s: ast::BlockStmt,
    ts: type_ast::BlockStmt,
    k1: Seq<TypeKindView>,
    k2: Seq<TypeKindView>,
    structs: Seq<type_ast::StructDef>,
)
    requires
        stmt_exprs_typed(s, ts, k1, structs),
        extends(k1, k2),
    ensures
        stmt_exprs_typed(s, ts, k2, structs),
    decreases s, 0int,
{
    match s {
        ast::BlockStmt::Let(l) => {
            if let type_ast::BlockStmt::Let(tl) = ts {
                lemma_typed_in_scope_extends(k1, k2, structs, l.expr, tl.expr);
            }
        },
        ast::BlockStmt::Assign(a) => {
            if let type_ast::BlockStmt::Assign(ta) = ts {
                let symbols = choose|symbols: SymbolTable|
                    typed(k1, structs, symbols, a.target, ta.target) && typed(k1, structs, symbols, a.expr, ta.expr);
                lemma_typed_extends(k1, k2, structs, symbols, a.target, ta.target);
                lemma_typed_extends(k1, k2, structs, symbols, a.expr, ta.expr);
            }
        },
        ast::BlockStmt::Return(r) => {
            if let type_ast::BlockStmt::Return(tr) = ts {
                if let Some(e) = r.expr {
                    lemma_typed_in_scope_extends(k1, k2, structs, e, tr.expr->0);
                }
            }
        },
        ast::BlockStmt::Expr(e) => {
            if let type_ast::BlockStmt::Expr(te) = ts {
                lemma_typed_in_scope_extends(k1, k2, structs, e, te);
            }
        },
        ast::BlockStmt::Block(b) => {
            if let type_ast::BlockStmt::Block(tb) = ts {
                lemma_block_exprs_extends(*b, *tb, k1, k2, structs);
            }
        },
        ast::BlockStmt::If(i) => {
            if let type_ast::BlockStmt::If(ti) = ts {
                lemma_typed_in_scope_extends(k1, k2, structs, *i.condition, *ti.condition);
                lemma_block_exprs_extends(*i.then_branch, *ti.then_branch, k1, k2, structs);
                if let Some(e) = i.else_branch {
                    lemma_block_exprs_extends(*e, *ti.else_branch->0, k1, k2, structs);
                }
            }
        },
        ast::BlockStmt::While(w) => {
            if let type_ast::BlockStmt::While(tw) = ts {
                lemma_typed_in_scope_extends(k1, k2, structs, *w.condition, *tw.condition);
                lemma_block_exprs_extends(*w.block, *tw.block, k1, k2, structs);
            }
        },
        _ => {},
    }
}

/// Analyses a block: each statement in turn, a nested block, a branch or a
/// loop body in a scope of its own; a `return` must give a value of the
/// function's return type, and a condition must be a boolean.
pub fn analysis_block(semantic: &mut Semantic, block: &ast::Block, return_ty: Option<TypeId>) -> (r: Result<
    type_ast::Block,
    SemanticError,
>)
    requires
        old(semantic).wf(),
    ensures
        final(semantic).wf(),
        final(semantic).kinds().len() >= old(semantic).kinds().len(),
        r is Ok ==> final(semantic).symbol_table.scopes().len() == old(semantic).symbol_table.scopes().len(),
        r matches Ok(tb) ==> block_checked(*block, tb, return_ty),
        extends(old(semantic).kinds(), final(semantic).kinds()),
        final(semantic).struct_table == old(semantic).struct_table,
        r matches Ok(tb) ==> block_exprs_typed(*block, tb, final(semantic).kinds(), final(semantic).struct_table.defs()),
        r matches Ok(tb) ==> forall|k: int|
            0 <= k < block.statements@.len() ==> let_bound(
                final(semantic).symbol_table,
                #[trigger] block.statements@[k],
                tb.statements@[k],
            ),
        (r is Ok && old(semantic).symbol_table.scopes().len() > 0) ==> (final(semantic).symbol_table.scopes().drop_last()
            == old(semantic).symbol_table.scopes().drop_last() && final(semantic).symbol_table.globals()
            == old(semantic).symbol_table.globals()),
        (r is Ok && old(semantic).symbol_table.scopes().len() > 0) ==> (final(semantic).symbol_table.scopes().last().len()
            == old(semantic).symbol_table.scopes().last().len() + let_count(block.statements@)
            && final(semantic).symbol_table.scopes().last().subrange(0, old(semantic).symbol_table.scopes().last().len() as int)
            == old(semantic).symbol_table.scopes().last()),
        (r is Ok && old(semantic).symbol_table.scopes().len() > 0) ==> final(semantic).symbol_table.next_slot()
            == old(semantic).symbol_table.next_slot() + let_count(block.statements@),
        plain_block_from(old(semantic).symbol_table, block.statements@, 0, return_ty) ==> r is Ok,
    decreases block,
{
    let ghost structs = semantic.struct_table.defs();
    let ghost t0 = semantic.symbol_table;
    let ghost stmts = block.statements@;
    proof {
        assert(stmts.take(0) =~= Seq::<ast::BlockStmt>::empty());
        if t0.scopes().len() > 0 {
            assert(t0.scopes().last().subrange(0, t0.scopes().last().len() as int) =~= t0.scopes().last());
        }
    }
    let mut statements: Vec<type_ast::BlockStmt> = Vec::new();
    let mut i: usize = 0;
    while i < block.statements.len()
        invariant
            semantic.wf(),
            extends(old(semantic).kinds(), semantic.kinds()),
            semantic.struct_table == old(semantic).struct_table,
            structs == semantic.struct_table.defs(),
            forall|k: int|
                0 <= k < i ==> stmt_exprs_typed(
                    #[trigger] block.statements@[k],
                    statements@[k],
                    semantic.kinds(),
                    structs,
                ),
            semantic.kinds().len() >= old(semantic).kinds().len(),
            semantic.symbol_table.scopes().len() == old(semantic).symbol_table.scopes().len(),
            i <= block.statements@.len(),
            statements@.len() == i,
            forall|k: int|
                0 <= k < i ==> stmt_checked(#[trigger] block.statements@[k], statements@[k], return_ty),
            t0 == old(semantic).symbol_table,
            stmts == block.statements@,
            plain_block_from(t0, stmts, 0, return_ty) ==> plain_block_from(semantic.symbol_table, stmts, i as int, return_ty),
            forall|k: int| 0 <= k < i ==> let_bound(semantic.symbol_table, #[trigger] stmts[k], statements@[k]),
            t0.scopes().len() > 0 ==> semantic.symbol_table.scopes().drop_last() == t0.scopes().drop_last()
                && semantic.symbol_table.globals() == t0.globals() && semantic.symbol_table.scopes().last().len()
                == t0.scopes().last().len() + let_count(stmts.take(i as int))
                && semantic.symbol_table.scopes().last().subrange(0, t0.scopes().last().len() as int)
                == t0.scopes().last(),
            t0.scopes().len() > 0 ==> semantic.symbol_table.next_slot() == t0.next_slot() + let_count(stmts.take(i as int)),
        decreases block.statements@.len() - i,
    {
        proof {
            assert(decreases_to!(*block => block.statements@[i as int]));
            assert(stmts.take(i + 1).drop_last() =~= stmts.take(i as int));
        }
        let ghost t_i = semantic.symbol_table;
        let ghost k0 = semantic.kinds();
        let stmt = match &block.statements[i] {
            ast::BlockStmt::Let(let_stmt) => {
                let expr = analysis_expr(semantic, &let_stmt.expr)?;
                let ghost symbols = semantic.symbol_table;
                let ghost te = expr;
                let location = semantic.symbol_table.insert(let_stmt.var_name.as_str(), *expr.ty())?;
                let s = type_ast::BlockStmt::Let(
                    type_ast::LetStmt { var_name: let_stmt.var_name.clone(), location, expr },
                );
                assert(typed(semantic.kinds(), structs, symbols, let_stmt.expr, te));
                proof {
                    let name = let_stmt.var_name@;
                    let kind = SymbolKind::Normal { type_id: te.spec_ty() };
                    let t_new = semantic.symbol_table;
                    t_new.lemma_added_declared(&symbols, name, kind, te.spec_ty(), location, name);
                    assert forall|k: int| 0 <= k < i implies let_bound(t_new, #[trigger] stmts[k], statements@[k]) by {
                        if let ast::BlockStmt::Let(lk) = stmts[k] {
                            t_new.lemma_added_declared(&symbols, name, kind, te.spec_ty(), location, lk.var_name@);
                        }
                    }
                    if t0.scopes().len() > 0 {
                        let n0 = t0.scopes().last().len() as int;
                        assert(t_new.scopes().last().subrange(0, n0) =~= symbols.scopes().last().subrange(0, n0));
                    }
                    if plain_block_from(t_i, stmts, i as int, return_ty) {
                        assert(stmts[i as int] == ast::BlockStmt::Let(*let_stmt));
                        assert(value_added(t_new, t_i, name, te.spec_ty(), location));
                        lemma_plain_let_step(t_i, stmts, i as int, return_ty, t_new, location);
                    }
                }
                s
            },
            ast::BlockStmt::Assign(assign_stmt) => {
                let target = analysis_expr(semantic, &assign_stmt.target)?;
                let ghost k1 = semantic.kinds();
                let expr = analysis_expr(semantic, &assign_stmt.expr)?;
                proof {
                    lemma_typed_extends(k1, semantic.kinds(), structs, semantic.symbol_table, assign_stmt.target, target);
                }
                type_ast::BlockStmt::Assign(type_ast::AssignStmt { target, expr })
            },
            ast::BlockStmt::Return(return_stmt) => {
                let expr = match &return_stmt.expr {
                    Some(e) => {
                        let te = analysis_expr(semantic, e)?;
                        assert(typed(semantic.kinds(), structs, semantic.symbol_table, *e, te));
                        Some(te)
                    },
                    None => None,
                };
                let ty = match &expr {
                    Some(e) => Some(*e.ty()),
                    None => None,
                };
                if ty != return_ty {
                    return Err(SemanticError::TypeMistmatch);
                }
                type_ast::BlockStmt::Return(type_ast::ReturnStmt { expr })
            },
            ast::BlockStmt::Expr(expr) => {
                let te = analysis_expr(semantic, expr)?;
                assert(typed(semantic.kinds(), structs, semantic.symbol_table, *expr, te));
                type_ast::BlockStmt::Expr(te)
            },
            ast::BlockStmt::Block(inner) => {
                semantic.symbol_table.enter_scope();
                let ghost t_e = semantic.symbol_table;
                assert(semantic.symbol_table.scopes().last() =~= Seq::<Symbol>::empty());
                let b = analysis_block(semantic, inner, return_ty)?;
                semantic.symbol_table.exit_scope();
                assert(t_i.scopes().push(Seq::<Symbol>::empty()).drop_last() =~= t_i.scopes());
                proof {
                    t_e.lemma_next_slot_bound();
                }
                assert(semantic.symbol_table.next_slot() == t_i.next_slot());
                type_ast::BlockStmt::Block(Box::new(b))
            },
            ast::BlockStmt::If(if_stmt) => {
                let condition = analysis_expr(semantic, &if_stmt.condition)?;
                let ghost kc = semantic.kinds();
                let ghost symbols = semantic.symbol_table;
                assert(typed(kc, structs, symbols, *if_stmt.condition, condition));
                if *condition.ty() != TypeId::bool_type() {
                    return Err(SemanticError::NonBooleanCondition);
                }
                semantic.symbol_table.enter_scope();
                assert(semantic.symbol_table.scopes().last() =~= Seq::<Symbol>::empty());
                let then_branch = analysis_block(semantic, &if_stmt.then_branch, return_ty)?;
                semantic.symbol_table.exit_scope();
                assert(t_i.scopes().push(Seq::<Symbol>::empty()).drop_last() =~= t_i.scopes());
                proof {
                    t_i.lemma_next_slot_bound();
                }
                assert(semantic.symbol_table.next_slot() == t_i.next_slot());
                let ghost kt = semantic.kinds();
                let else_branch = match &if_stmt.else_branch {
                    Some(else_branch) => {
                        semantic.symbol_table.enter_scope();
                        assert(semantic.symbol_table.scopes().last() =~= Seq::<Symbol>::empty());
                        let b = analysis_block(semantic, else_branch, return_ty)?;
                        semantic.symbol_table.exit_scope();
                        assert(t_i.scopes().push(Seq::<Symbol>::empty()).drop_last() =~= t_i.scopes());
                        proof {
                            t_i.lemma_next_slot_bound();
                        }
                        assert(semantic.symbol_table.next_slot() == t_i.next_slot());
                        Some(Box::new(b))
                    },
                    None => None,
                };
                proof {
                    lemma_typed_in_scope_extends(kc, semantic.kinds(), structs, *if_stmt.condition, condition);
                    lemma_block_exprs_extends(*if_stmt.then_branch, then_branch, kt, semantic.kinds(), structs);
                }
                type_ast::BlockStmt::If(
                    type_ast::IfStmt {
                        condition: Box::new(condition),
                        then_branch: Box::new(then_branch),
                        else_branch,
                    },
                )
            },
            ast::BlockStmt::While(while_stmt) => {
                let condition = analysis_expr(semantic, &while_stmt.condition)?;
                let ghost kc = semantic.kinds();
                assert(typed(kc, structs, semantic.symbol_table, *while_stmt.condition, condition));
                if *condition.ty() != TypeId::bool_type() {
                    return Err(SemanticError::NonBooleanCondition);
                }
                semantic.symbol_table.enter_scope();
                assert(semantic.symbol_table.scopes().last() =~= Seq::<Symbol>::empty());
                let body = analysis_block(semantic, &while_stmt.block, return_ty)?;
                semantic.symbol_table.exit_scope();
                assert(t_i.scopes().push(Seq::<Symbol>::empty()).drop_last() =~= t_i.scopes());
                proof {
                    t_i.lemma_next_slot_bound();
                }
                assert(semantic.symbol_table.next_slot() == t_i.next_slot());
                proof {
                    lemma_typed_in_scope_extends(kc, semantic.kinds(), structs, *while_stmt.condition, condition);
                }
                type_ast::BlockStmt::While(
                    type_ast::WhileStmt { condition: Box::new(condition), block: Box::new(body) },
                )
            },
            ast::BlockStmt::Break => type_ast::BlockStmt::Break,
            ast::BlockStmt::Continue => type_ast::BlockStmt::Continue,
        };
        assert(stmt_exprs_typed(block.statements@[i as int], stmt, semantic.kinds(), structs));
        let ghost before = statements@;
        statements.push(stmt);
        proof {
            assert forall|k: int| 0 <= k < i + 1 implies stmt_checked(
                #[trigger] block.statements@[k],
                statements@[k],
                return_ty,
            ) by {
                if k < i {
                    assert(statements@[k] == before[k]);
                }
            }
            assert forall|k: int| 0 <= k < i + 1 implies stmt_exprs_typed(
                #[trigger] block.statements@[k],
                statements@[k],
                semantic.kinds(),
                structs,
            ) by {
                if k < i {
                    assert(statements@[k] == before[k]);
                    lemma_stmt_exprs_extends(block.statements@[k], before[k], k0, semantic.kinds(), structs);
                }
            }
            assert forall|k: int| 0 <= k < i + 1 implies let_bound(
                semantic.symbol_table,
                #[trigger] stmts[k],
                statements@[k],
            ) by {
                if k < i {
                    assert(statements@[k] == before[k]);
                }
            }
        }
        i = i + 1;
    }
    assert(stmts.take(i as int) =~= stmts);
    Ok(type_ast::Block { statements })
}

/// Analyses a function in a scope of its own: `self` first for a method of
/// type `this`, then its parameters, its return type and its body; the
/// function is the global of its name.
pub fn analysis_func(semantic: &mut Semantic, fn_def: &ast::FunctionDef, this: Option<TypeId>) -> (r: Result<
    type_ast::FunctionDef,
    SemanticError,
>)
    requires
        old(semantic).wf(),
    ensures
        final(semantic).wf(),
        final(semantic).kinds().len() >= old(semantic).kinds().len(),
        r is Ok ==> final(semantic).symbol_table.scopes().len() == old(semantic).symbol_table.scopes().len(),
        r matches Ok(f) ==> f.name@ == fn_def.name@ && f.args@.len() == fn_def.args@.len() + (if this is Some {
            1int
        } else {
            0int
        }),
        r matches Ok(f) ==> block_checked(fn_def.body, f.body, f.return_type),
        r matches Ok(f) ==> block_exprs_typed(fn_def.body, f.body, final(semantic).kinds(), final(semantic).struct_table.defs()),
        r matches Ok(f) ==> forall|k: int|
            0 <= k < fn_def.args@.len() ==> f.args@[k + (if this is Some {
                1int
            } else {
                0int
            })].name@ == (#[trigger] fn_def.args@[k]).name@,
        r matches Ok(f) ==> (fn_def.return_type is None <==> f.return_type is None),
        r matches Ok(f) ==> (this matches Some(t) ==> f.args@[0].type_ == t && f.args@[0].name@ == seq![
            's',
            'e',
            'l',
            'f',
        ]),
        (this is None && plain_fn(old(semantic).symbol_table, *fn_def)) ==> r is Ok,
        final(semantic).struct_table == old(semantic).struct_table,
        r is Ok ==> final(semantic).symbol_table.scopes() == old(semantic).symbol_table.scopes()
            && final(semantic).symbol_table.globals() == old(semantic).symbol_table.globals(),
        (r is Ok && this is None && fn_def.args@.len() == 0) ==> final(semantic).symbol_table.next_slot() == old(
            semantic,
        ).symbol_table.next_slot(),
{
    let mut args: Vec<type_ast::Arg> = Vec::new();
    let ghost t0 = semantic.symbol_table;
    semantic.symbol_table.enter_scope();
    let ghost t1 = semantic.symbol_table;
    assert(scope_entered(t1, t0));
    assert(t1.scopes().drop_last() =~= t0.scopes());
    match this {
        Some(t) => {
            let location = semantic.symbol_table.insert("self", t)?;
            let name = owned("self");
            proof {
                reveal_strlit("self");
            }
            args.push(type_ast::Arg { name, type_: t, location });
        },
        None => {},
    }
    let mut i: usize = 0;
    while i < fn_def.args.len()
        invariant
            semantic.wf(),
            semantic.kinds().len() >= old(semantic).kinds().len(),
            semantic.symbol_table.scopes().len() == old(semantic).symbol_table.scopes().len() + 1,
            i <= fn_def.args@.len(),
            args@.len() == i + (if this is Some {
                1int
            } else {
                0int
            }),
            this matches Some(t) ==> args@[0].type_ == t && args@[0].name@ == seq!['s', 'e', 'l', 'f'],
            forall|k: int|
                0 <= k < i ==> args@[k + (if this is Some {
                    1int
                } else {
                    0int
                })].name@ == (#[trigger] fn_def.args@[k]).name@,
            t0 == old(semantic).symbol_table,
            (this is None && fn_def.args@.len() == 0) ==> semantic.symbol_table == t1,
            scope_entered(t1, t0),
            semantic.struct_table == old(semantic).struct_table,
            semantic.symbol_table.scopes().drop_last() == t0.scopes(),
            semantic.symbol_table.globals() == t0.globals(),
        decreases fn_def.args@.len() - i,
    {
        let type_ = semantic.type_id(&fn_def.args[i].type_)?;
        let location = semantic.symbol_table.insert(fn_def.args[i].name.as_str(), type_)?;
        args.push(type_ast::Arg { name: fn_def.args[i].name.clone(), type_, location });
        i = i + 1;
    }
    let return_type = match &fn_def.return_type {
        Some(ty) => Some(semantic.type_id(ty)?),
        None => None,
    };
    let body = analysis_block(semantic, &fn_def.body, return_type)?;
    let locals = semantic.symbol_table.take_local_types();
    semantic.symbol_table.exit_scope();
    assert(t0.scopes().push(Seq::<Symbol>::empty()).drop_last() =~= t0.scopes());
    proof {
        if this is None && fn_def.args@.len() == 0 {
            assert(t1.scopes().last() =~= Seq::<Symbol>::empty());
            t0.lemma_next_slot_bound();
        }
    }
    let idx = match semantic.symbol_table.lookup(fn_def.name.as_str()) {
        Some(symbol) => match symbol.location {
            Location::Global(idx) => idx,
            Location::Local(_) => return Err(SemanticError::MissFunc { name: fn_def.name.clone() }),
        },
        None => return Err(SemanticError::MissFunc { name: fn_def.name.clone() }),
    };
    Ok(type_ast::FunctionDef { name: fn_def.name.clone(), args, return_type, locals, body, idx })
}

impl Semantic {
    /// Declares every struct, then gives each its typed fields; a name
    /// declared twice is an error.
    #[verifier::rlimit(40)]
    pub fn scan_struct_defs(&mut self, program: &ast::Program) -> (r: Result<(), SemanticError>)
        requires
            old(self).wf(),
        ensures
            final(self).wf(),
            final(self).kinds().len() >= old(self).kinds().len(),
            final(self).symbol_table == old(self).symbol_table,
            r is Ok <==> structs_declarable(old(self).struct_table.names(), program.statements@),
            r is Ok ==> final(self).struct_table.names() == old(self).struct_table.names() + struct_names(
                program.statements@,
            ),
            r is Ok ==> forall|i: int|
                0 <= i < program.statements@.len() ==> (#[trigger] program.statements@[i] matches ast::Statement::StructDef(d)
                    ==> (first_index(final(self).struct_table.names(), d.name@) matches Some(k) && field_names(
                    final(self).struct_table.defs()[k],
                ) == ast_field_names(d))),
    {
        let ghost stmts = program.statements@;
        proof {
            self.struct_table.lemma_names_distinct();
            assert(stmts.take(0) =~= Seq::<ast::Statement>::empty());
            assert(old(self).struct_table.names() + struct_names(stmts.take(0)) =~= old(
                self,
            ).struct_table.names());
        }
        let mut i: usize = 0;
        while i < program.statements.len()
            invariant
                self.wf(),
                self.kinds().len() >= old(self).kinds().len(),
                i <= program.statements@.len(),
                stmts == program.statements@,
                self.struct_table.names() == old(self).struct_table.names() + struct_names(stmts.take(i as int)),
                (old(self).struct_table.names() + struct_names(stmts.take(i as int))).no_duplicates(),
                self.symbol_table == old(self).symbol_table,
            decreases program.statements@.len() - i,
        {
            proof {
                assert(stmts.take(i + 1).drop_last() =~= stmts.take(i as int));
            }
            match &program.statements[i] {
                ast::Statement::StructDef(struct_def) => {
                    let ghost before = self.struct_table.names();
                    match self.struct_table.insert(
                        type_ast::StructDef { name: struct_def.name.clone(), fields: Vec::new() },
                    ) {
                        Ok(_) => {},
                        Err(e) => {
                            proof {
                                let full = old(self).struct_table.names() + struct_names(stmts);
                                let a = choose|a: int| 0 <= a < before.len() && before[a] == struct_def.name@;
                                lemma_struct_names_prefix(stmts, i + 1);
                                let part = old(self).struct_table.names() + struct_names(stmts.take(i + 1));
                                assert(part == before.push(struct_def.name@));
                                assert(full[a] == part[a]);
                                assert(full[before.len() as int] == part[before.len() as int]);
                                assert(!full.no_duplicates());
                            }
                            return Err(e);
                        },
                    }
                    proof {
                        assert(self.struct_table.names() =~= old(self).struct_table.names() + struct_names(
                            stmts.take(i + 1),
                        ));
                        assert forall|a: int, b: int|
                            0 <= a < b < self.struct_table.names().len() implies self.struct_table.names()[a]
                            != self.struct_table.names()[b] by {
                            if b == before.len() {
                                assert(before.contains(before[a]));
                            }
                        }
                    }
                },
                ast::Statement::FunctionDef(_) => {
                    proof {
                        assert(struct_names(stmts.take(i + 1)) =~= struct_names(stmts.take(i as int)));
                    }
                },
            }
            i = i + 1;
        }
        proof {
            assert(stmts.take(i as int) =~= stmts);
        }
        let ghost names = self.struct_table.names();
        proof {
            self.struct_table.lemma_names_distinct();
            assert(struct_names(stmts).no_duplicates()) by {
                let o = old(self).struct_table.names();
                assert forall|a: int, b: int| 0 <= a < b < struct_names(stmts).len() implies struct_names(
                    stmts,
                )[a] != struct_names(stmts)[b] by {
                    assert(names[o.len() + a] == struct_names(stmts)[a]);
                    assert(names[o.len() + b] == struct_names(stmts)[b]);
                }
            }
        }
        let mut i: usize = 0;
        while i < program.statements.len()
            invariant
                self.wf(),
                self.kinds().len() >= old(self).kinds().len(),
                i <= program.statements@.len(),
                stmts == program.statements@,
                self.struct_table.names() == names,
                names == old(self).struct_table.names() + struct_names(stmts),
                struct_names(stmts).no_duplicates(),
                self.symbol_table == old(self).symbol_table,
                forall|j: int|
                    0 <= j < i ==> (#[trigger] stmts[j] matches ast::Statement::StructDef(d) ==> (first_index(
                        names,
                        d.name@,
                    ) matches Some(k) && 0 <= k < self.struct_table.defs().len() && field_names(
                        self.struct_table.defs()[k],
                    ) == ast_field_names(d))),
                forall|j: int|
                    0 <= j < i ==> (#[trigger] stmts[j] matches ast::Statement::StructDef(d) ==> forall|k: int|
                        0 <= k < d.fields@.len() ==> typeable(names, #[trigger] d.fields@[k].type_)),
            decreases program.statements@.len() - i,
        {
            match &program.statements[i] {
                ast::Statement::StructDef(struct_def) => {
                    let fields = match self.typed_fields(&struct_def.fields) {
                        Ok(fields) => fields,
                        Err(e) => {
                            assert(stmts[i as int] matches ast::Statement::StructDef(d) && d == *struct_def);
                            return Err(e);
                        },
                    };
                    let ghost before = self.struct_table.defs();
                    let ghost v = fields@;
                    proof {
                        lemma_struct_named(stmts, i as int);
                        let k = choose|k: int| 0 <= k < struct_names(stmts).len() && struct_names(stmts)[k]
                            == struct_def.name@;
                        let at = old(self).struct_table.names().len() + k;
                        assert(names[at] == struct_def.name@);
                        self.struct_table.lemma_names_distinct();
                        assert(forall|j: int| 0 <= j < at ==> names[j] != names[at]);
                        assert(first_index(names, struct_def.name@) is Some);
                    }
                    self.struct_table.set_fields(struct_def.name.as_str(), fields);
                    proof {
                        self.struct_table.lemma_names_distinct();
                        let ki = first_index(names, struct_def.name@)->0;
                        assert(0 <= ki < names.len());
                        assert(field_names(self.struct_table.defs()[ki]) =~= ast_field_names(*struct_def));
                        lemma_fields_kept(stmts, names, before, self.struct_table.defs(), i as int, ki);
                    }
                },
                ast::Statement::FunctionDef(_) => {},
            }
            i = i + 1;
        }
        Ok(())
    }

    /// The fields with their types.
    fn typed_fields(&mut self, fields: &Vec<ast::Field>) -> (r: Result<Vec<type_ast::Field>, SemanticError>)
        requires
            old(self).wf(),
        ensures
            final(self).wf(),
            final(self).kinds().len() >= old(self).kinds().len(),
            r is Ok <==> forall|k: int|
                0 <= k < fields@.len() ==> typeable(old(self).struct_table.names(), #[trigger] fields@[k].type_),
            r matches Ok(v) ==> v@.len() == fields@.len() && forall|k: int|
                0 <= k < fields@.len() ==> (#[trigger] v@[k]).name@ == fields@[k].name@,
            r matches Ok(v) ==> forall|k: int|
                0 <= k < fields@.len() ==> denotes(
                    final(self).kinds(),
                    final(self).struct_table.names(),
                    #[trigger] fields@[k].type_,
                    v@[k].type_,
                ),
            final(self).struct_table == old(self).struct_table,
            final(self).symbol_table == old(self).symbol_table,
            extends(old(self).kinds(), final(self).kinds()),
    {
        let ghost names = self.struct_table.names();
        let mut out: Vec<type_ast::Field> = Vec::new();
        let mut j: usize = 0;
        while j < fields.len()
            invariant
                self.wf(),
                self.kinds().len() >= old(self).kinds().len(),
                j <= fields@.len(),
                out@.len() == j,
                forall|k: int| 0 <= k < j ==> (#[trigger] out@[k]).name@ == fields@[k].name@,
                forall|k: int|
                    0 <= k < j ==> typeable(names, #[trigger] fields@[k].type_) && denotes(
                        self.kinds(),
                        names,
                        fields@[k].type_,
                        out@[k].type_,
                    ),
                self.struct_table == old(self).struct_table,
                names == self.struct_table.names(),
                self.symbol_table == old(self).symbol_table,
                extends(old(self).kinds(), self.kinds()),
            decreases fields@.len() - j,
        {
            let ghost before = self.kinds();
            let ty = match self.type_id(&fields[j].type_) {
                Ok(ty) => ty,
                Err(e) => {
                    assert(!typeable(names, fields@[j as int].type_));
                    return Err(e);
                },
            };
            let ghost prev = out@;
            out.push(type_ast::Field { name: fields[j].name.clone(), type_: ty });
            proof {
                assert forall|k: int| 0 <= k < j + 1 implies typeable(names, #[trigger] fields@[k].type_) && denotes(
                    self.kinds(),
                    names,
                    fields@[k].type_,
                    out@[k].type_,
                ) by {
                    if k < j {
                        assert(out@[k] == prev[k]);
                        lemma_denotes_extends(before, self.kinds(), names, fields@[k].type_, prev[k].type_);
                    }
                }
            }
            j = j + 1;
        }
        Ok(out)
    }

    /// Declares every function of the program, where names are added now,
    /// as a value of its function type.
    pub fn scan_function_defs(&mut self, program: &ast::Program) -> (r: Result<(), SemanticError>)
        requires
            old(self).wf(),
        ensures
            final(self).wf(),
            final(self).kinds().len() >= old(self).kinds().len(),
            extends(old(self).kinds(), final(self).kinds()),
            final(self).struct_table == old(self).struct_table,
            r is Ok <==> functions_declarable(
                old(self).symbol_table,
                old(self).struct_table.names(),
                program.statements@,
            ),
            r is Ok ==> forall|k: int|
                0 <= k < program.statements@.len() ==> (#[trigger] program.statements@[k] matches ast::Statement::FunctionDef(
                    f,
                ) ==> fn_declared(*final(self), f)),
            old(self).symbol_table.scopes().len() == 0 ==> final(self).symbol_table.scopes() == old(
                self,
            ).symbol_table.scopes() && final(self).symbol_table.next_slot() == old(self).symbol_table.next_slot(),
            (r is Ok && old(self).symbol_table.scopes().len() == 0) ==> forall|k: int|
                0 <= k < program.statements@.len() ==> global_fn(final(self).symbol_table, #[trigger] program.statements@[k]),
    {
        let ghost stmts = program.statements@;
        let ghost t0 = self.symbol_table;
        let ghost structs = self.struct_table.names();
        proof {
            assert(stmts.take(0) =~= Seq::<ast::Statement>::empty());
            assert(fn_names_of(stmts.take(0)) =~= Seq::<Seq<char>>::empty());
        }
        let mut i: usize = 0;
        while i < program.statements.len()
            invariant
                self.wf(),
                self.kinds().len() >= old(self).kinds().len(),
                extends(old(self).kinds(), self.kinds()),
                self.struct_table == old(self).struct_table,
                stmts == program.statements@,
                t0 == old(self).symbol_table,
                structs == old(self).struct_table.names(),
                i <= program.statements@.len(),
                forall|k: int|
                    0 <= k < i ==> (#[trigger] program.statements@[k] matches ast::Statement::FunctionDef(f)
                        ==> fn_declared(*self, f)),
                self.symbol_table.scopes().len() == t0.scopes().len(),
                t0.scopes().len() > 0 ==> self.symbol_table.next_slot() == t0.next_slot() + fn_names_of(
                    stmts.take(i as int),
                ).len(),
                forall|n: Seq<char>|
                    (#[trigger] self.symbol_table.declared(n) is Some) <==> (t0.declared(n) is Some || fn_names_of(
                        stmts.take(i as int),
                    ).contains(n)),
                fn_names_of(stmts.take(i as int)).no_duplicates(),
                forall|k: int| 0 <= k < i ==> fn_ok(t0, structs, #[trigger] stmts[k]),
                t0.scopes().len() == 0 ==> self.symbol_table.scopes() == t0.scopes() && self.symbol_table.next_slot()
                    == t0.next_slot(),
                t0.scopes().len() == 0 ==> forall|k: int| 0 <= k < i ==> global_fn(self.symbol_table, #[trigger] stmts[k]),
            decreases program.statements@.len() - i,
        {
            let ghost start = *self;
            proof {
                assert(stmts.take(i + 1).drop_last() =~= stmts.take(i as int));
                assert(stmts.take(i + 1).last() == stmts[i as int]);
            }
            match &program.statements[i] {
                ast::Statement::StructDef(_) => {},
                ast::Statement::FunctionDef(function_def) => {
                    let mut args: Vec<TypeId> = Vec::new();
                    let mut j: usize = 0;
                    while j < function_def.args.len()
                        invariant
                            self.wf(),
                            self.kinds().len() >= old(self).kinds().len(),
                            extends(start.kinds(), self.kinds()),
                            extends(old(self).kinds(), self.kinds()),
                            self.struct_table == old(self).struct_table,
                            self.struct_table == start.struct_table,
                            self.symbol_table == start.symbol_table,
                            structs == self.struct_table.names(),
                            stmts == program.statements@,
                            t0 == old(self).symbol_table,
                            t0.scopes().len() == 0 ==> start.symbol_table.scopes() == t0.scopes()
                                && start.symbol_table.next_slot() == t0.next_slot(),
                            i < stmts.len(),
                            stmts[i as int] == ast::Statement::FunctionDef(*function_def),
                            j <= function_def.args@.len(),
                            args@.len() == j,
                            forall|m: int|
                                0 <= m < j ==> typeable(structs, (#[trigger] function_def.args@[m]).type_)
                                    && denotes(self.kinds(), structs, function_def.args@[m].type_, args@[m]),
                        decreases function_def.args@.len() - j,
                    {
                        let ghost before = self.kinds();
                        let t = match self.type_id(&function_def.args[j].type_) {
                            Ok(t) => t,
                            Err(e) => {
                                proof {
                                    assert(!fn_ok(t0, structs, stmts[i as int]));
                                    lemma_fn_ok_all(t0, structs, stmts, i as int);
                                }
                                return Err(e);
                            },
                        };
                        proof {
                            assert forall|m: int| 0 <= m < j implies typeable(
                                structs,
                                (#[trigger] function_def.args@[m]).type_,
                            ) && denotes(self.kinds(), structs, function_def.args@[m].type_, args@[m]) by {
                                lemma_denotes_extends(before, self.kinds(), structs, function_def.args@[m].type_, args@[m]);
                            }
                        }
                        args.push(t);
                        j = j + 1;
                    }
                    let ghost before = self.kinds();
                    let return_ty = match &function_def.return_type {
                        Some(ty) => match self.type_id(ty) {
                            Ok(t) => t,
                            Err(e) => {
                                proof {
                                    assert(!fn_ok(t0, structs, stmts[i as int]));
                                    lemma_fn_ok_all(t0, structs, stmts, i as int);
                                }
                                return Err(e);
                            },
                        },
                        None => TypeId::nil_type(),
                    };
                    let ghost mid = self.kinds();
                    let type_id = self.type_table.intern(TypeKind::Fn { args, return_ty });
                    let ghost typed = *self;
                    let name_str = function_def.name.as_str();
                    let loc = match self.symbol_table.insert(name_str, type_id) {
                        Ok(loc) => loc,
                        Err(e) => {
                            proof {
                                let name = function_def.name@;
                                lemma_fn_names_prefix(stmts, i + 1);
                                if t0.declared(name) is Some {
                                    assert(!fn_ok(t0, structs, stmts[i as int]));
                                    lemma_fn_ok_all(t0, structs, stmts, i as int);
                                } else if fn_names_of(stmts.take(i as int)).contains(name) {
                                    let all = fn_names_of(stmts);
                                    let part = fn_names_of(stmts.take(i + 1));
                                    let prev = fn_names_of(stmts.take(i as int));
                                    let a = choose|a: int| 0 <= a < prev.len() && prev[a] == name;
                                    assert(part == prev.push(name));
                                    assert(all[a] == part[a]);
                                    assert(all[prev.len() as int] == part[prev.len() as int]);
                                } else {
                                    assert(t0.scopes().len() > 0);
                                    assert(fn_names_of(stmts.take(i + 1)).len() == fn_names_of(
                                        stmts.take(i as int),
                                    ).len() + 1);
                                }
                            }
                            return Err(e);
                        },
                    };
                    proof {
                        let name = function_def.name@;
                        let kind = SymbolKind::Normal { type_id };
                        assert(self.symbol_table.added(&typed.symbol_table, name, kind, type_id, loc));
                        self.symbol_table.lemma_added_declared(&typed.symbol_table, name, kind, type_id, loc, name);
                        reveal(fn_declared);
                        assert forall|m: int| 0 <= m < function_def.args@.len() implies denotes(
                            self.kinds(),
                            structs,
                            (#[trigger] function_def.args@[m]).type_,
                            args@[m],
                        ) by {
                            lemma_denotes_extends(before, self.kinds(), structs, function_def.args@[m].type_, args@[m]);
                        }
                        if function_def.return_type is Some {
                            lemma_denotes_extends(mid, self.kinds(), structs, function_def.return_type->0, return_ty);
                        }
                        assert(fn_declared(*self, *function_def));
                        assert forall|k: int| 0 <= k < i implies (#[trigger] program.statements@[k] matches ast::Statement::FunctionDef(
                            g,
                        ) ==> fn_declared(*self, g)) by {
                            if let ast::Statement::FunctionDef(g) = program.statements@[k] {
                                self.symbol_table.lemma_added_declared(&typed.symbol_table, name, kind, type_id, loc, g.name@);
                                lemma_fn_declared_kept(start, *self, g);
                            }
                        }
                        assert forall|n: Seq<char>|
                            (#[trigger] self.symbol_table.declared(n) is Some) <==> (t0.declared(n) is Some
                                || fn_names_of(stmts.take(i + 1)).contains(n)) by {
                            self.symbol_table.lemma_added_declared(&typed.symbol_table, name, kind, type_id, loc, n);
                            assert(fn_names_of(stmts.take(i + 1)) == fn_names_of(stmts.take(i as int)).push(name));
                            let prev = fn_names_of(stmts.take(i as int));
                            let next = fn_names_of(stmts.take(i + 1));
                            assert(typed.symbol_table.declared(n) is Some <==> (t0.declared(n) is Some
                                || prev.contains(n)));
                            if n == name {
                                assert(next[prev.len() as int] == name);
                            }
                            if prev.contains(n) {
                                let a = choose|a: int| 0 <= a < prev.len() && prev[a] == n;
                                assert(next[a] == n);
                            }
                            if next.contains(n) && n != name {
                                let a = choose|a: int| 0 <= a < next.len() && next[a] == n;
                                assert(prev[a] == n);
                            }
                        }
                        assert(!fn_names_of(stmts.take(i as int)).contains(name));
                        assert(fn_names_of(stmts.take(i + 1)).no_duplicates());
                        assert(fn_ok(t0, structs, stmts[i as int]));
                        if t0.scopes().len() == 0 {
                            assert forall|k: int| 0 <= k < i + 1 implies global_fn(self.symbol_table, #[trigger] stmts[k]) by {
                                if let ast::Statement::FunctionDef(g) = stmts[k] {
                                    self.symbol_table.lemma_added_declared(&typed.symbol_table, name, kind, type_id, loc, g.name@);
                                    if k < i {
                                        assert(global_fn(typed.symbol_table, stmts[k]));
                                    }
                                }
                            }
                        }
                    }
                },
            }
            proof {
                if stmts[i as int] is StructDef {
                    assert(fn_names_of(stmts.take(i + 1)) == fn_names_of(stmts.take(i as int)));
                }
                assert forall|k: int| 0 <= k < i + 1 implies fn_ok(t0, structs, #[trigger] stmts[k]) by {}
            }
            i = i + 1;
        }
        proof {
            assert(stmts.take(i as int) =~= stmts);
            self.symbol_table.lemma_next_slot_bound();
        }
        Ok(())
    }

    /// Analyses the functions of a struct, then its methods, whose `self`
    /// is of type `this`.
    fn analysis_struct_functions(&mut self, struct_def: &ast::StructDef, this: TypeId) -> (r: Result<
        Vec<type_ast::AssociatedFunction>,
        SemanticError,
    >)
        requires
            old(self).wf(),
        ensures
            final(self).wf(),
            r matches Ok(fs) ==> impl_matches(*struct_def, fs@),
    {
        let mut functions: Vec<type_ast::AssociatedFunction> = Vec::new();
        let nf = struct_def.functions.len();
        let mut j: usize = 0;
        while j < struct_def.functions.len()
            invariant
                self.wf(),
                j <= struct_def.functions@.len(),
                nf == struct_def.functions@.len(),
                functions@.len() == j,
                forall|k: int| 0 <= k < j ==> assoc_matches(struct_def.functions@[k], #[trigger] functions@[k], false),
            decreases struct_def.functions@.len() - j,
        {
            let f = analysis_func(self, &struct_def.functions[j], None)?;
            functions.push(type_ast::AssociatedFunction::Function(f));
            j = j + 1;
        }
        let mut j: usize = 0;
        while j < struct_def.methods.len()
            invariant
                self.wf(),
                j <= struct_def.methods@.len(),
                nf == struct_def.functions@.len(),
                functions@.len() == nf + j,
                forall|k: int| 0 <= k < nf ==> assoc_matches(struct_def.functions@[k], #[trigger] functions@[k], false),
                forall|k: int| 0 <= k < j ==> assoc_matches(#[trigger] struct_def.methods@[k], functions@[nf + k], true),
            decreases struct_def.methods@.len() - j,
        {
            let f = analysis_func(self, &struct_def.methods[j], Some(this))?;
            let ghost prev = functions@;
            functions.push(type_ast::AssociatedFunction::Method(f));
            assert forall|k: int| 0 <= k < j + 1 implies assoc_matches(
                #[trigger] struct_def.methods@[k],
                functions@[nf + k],
                true,
            ) by {
                if k < j {
                    assert(functions@[nf + k] == prev[nf + k]);
                }
            }
            j = j + 1;
        }
        Ok(functions)
    }

    /// Types one definition of a program and appends what it gives: a
    /// function, or a struct and, where it has functions or methods, their
    /// impl.
    fn analysis_definition(&mut self, stmt: &ast::Statement, defs: &mut Vec<type_ast::Definition>) -> (r: Result<
        (),
        SemanticError,
    >)
        requires
            old(self).wf(),
        ensures
            final(self).wf(),
            r is Ok ==> final(defs)@.len() == old(defs)@.len() + def_count(*stmt),
            r is Ok ==> forall|j: int| 0 <= j < old(defs)@.len() ==> #[trigger] final(defs)@[j] == old(defs)@[j],
            r is Ok ==> defs_match(*stmt, final(defs)@, old(defs)@.len() as int),
            simple_struct(*stmt, old(self).struct_table.names()) ==> r is Ok && final(self).struct_table
                == old(self).struct_table && final(self).symbol_table == old(self).symbol_table,
            (*stmt matches ast::Statement::FunctionDef(f) && plain_fn(old(self).symbol_table, f)) ==> r is Ok,
            (*stmt is FunctionDef && r is Ok) ==> final(self).struct_table == old(self).struct_table
                && final(self).symbol_table.scopes() == old(self).symbol_table.scopes()
                && final(self).symbol_table.globals() == old(self).symbol_table.globals(),
            (*stmt matches ast::Statement::FunctionDef(f) && f.args@.len() == 0 && r is Ok)
                ==> final(self).symbol_table.next_slot() == old(self).symbol_table.next_slot(),
    {
        match stmt {
            ast::Statement::StructDef(struct_def) => {
                let fields = self.typed_fields(&struct_def.fields)?;
                let sd = type_ast::StructDef { name: struct_def.name.clone(), fields };
                assert(field_names(sd) =~= ast_field_names(*struct_def));
                defs.push(type_ast::Definition::StructDef(sd));
                if struct_def.functions.len() > 0 || struct_def.methods.len() > 0 {
                    let mut segments: Vec<ast::PathSegment> = Vec::new();
                    segments.push(ast::PathSegment { ident: struct_def.name.clone(), args: Vec::new() });
                    let this = self.type_id(&ast::Type { segments })?;
                    let functions = self.analysis_struct_functions(struct_def, this)?;
                    defs.push(type_ast::Definition::ImplDef(type_ast::ImplDef { ty: this, functions }));
                }
            },
            ast::Statement::FunctionDef(fn_def) => {
                let f = analysis_func(self, fn_def, None)?;
                defs.push(type_ast::Definition::FunctionDef(f));
            },
        }
        Ok(())
    }

    /// Declares the structs of a program, then its functions.
    fn scan_program(&mut self, program: &ast::Program) -> (r: Result<(), SemanticError>)
        requires
            old(self).wf(),
        ensures
            final(self).wf(),
            r is Ok <==> (structs_declarable(old(self).struct_table.names(), program.statements@) && functions_declarable(
                old(self).symbol_table,
                old(self).struct_table.names() + struct_names(program.statements@),
                program.statements@,
            )),
            r is Ok ==> final(self).struct_table.names() == old(self).struct_table.names() + struct_names(
                program.statements@,
            ),
            old(self).symbol_table.scopes().len() == 0 ==> final(self).symbol_table.scopes() == old(
                self,
            ).symbol_table.scopes() && final(self).symbol_table.next_slot() == old(self).symbol_table.next_slot(),
            (r is Ok && old(self).symbol_table.scopes().len() == 0) ==> forall|k: int|
                0 <= k < program.statements@.len() ==> global_fn(final(self).symbol_table, #[trigger] program.statements@[k]),
    {
        let ghost names = old(self).struct_table.names() + struct_names(program.statements@);
        let ghost t0 = self.symbol_table;
        match self.scan_struct_defs(program) {
            Ok(()) => {},
            Err(e) => {
                return Err(e);
            },
        }
        assert(self.symbol_table == t0 && self.struct_table.names() == names);
        self.scan_function_defs(program)
    }

    /// Analyses a program: declares its structs and functions, then types
    /// each definition in order; a struct's functions and methods follow
    /// it as the functions of its type.
    #[verifier::spinoff_prover]
    #[verifier::rlimit(100)]
    pub fn analysis_type(&mut self, program: &ast::Program) -> (r: Result<type_ast::Program, SemanticError>)
        requires
            old(self).wf(),
        ensures
            final(self).wf(),
            r matches Ok(p) ==> p.defs@.len() == def_offset(program.statements@, program.statements@.len() as int),
            r matches Ok(p) ==> forall|k: int|
                0 <= k < program.statements@.len() ==> defs_match(
                    #[trigger] program.statements@[k],
                    p.defs@,
                    def_offset(program.statements@, k),
                ),
            !structs_declarable(old(self).struct_table.names(), program.statements@) ==> r is Err,
            !functions_declarable(
                old(self).symbol_table,
                old(self).struct_table.names() + struct_names(program.statements@),
                program.statements@,
            ) ==> r is Err,
            (structs_declarable(old(self).struct_table.names(), program.statements@) && functions_declarable(
                old(self).symbol_table,
                old(self).struct_table.names() + struct_names(program.statements@),
                program.statements@,
            ) && forall|k: int|
                0 <= k < program.statements@.len() ==> simple_struct(
                    #[trigger] program.statements@[k],
                    old(self).struct_table.names() + struct_names(program.statements@),
                )) ==> r is Ok,
            (old(self).symbol_table.scopes().len() == 0 && structs_declarable(
                old(self).struct_table.names(),
                program.statements@,
            ) && functions_declarable(
                old(self).symbol_table,
                old(self).struct_table.names() + struct_names(program.statements@),
                program.statements@,
            ) && forall|k: int|
                0 <= k < program.statements@.len() ==> (simple_struct(
                    #[trigger] program.statements@[k],
                    old(self).struct_table.names() + struct_names(program.statements@),
                ) || closed_plain_fn(program.statements@[k], old(self).symbol_table.next_slot()))) ==> r is Ok,
    {
        let ghost names = old(self).struct_table.names() + struct_names(program.statements@);
        let ghost ta = self.symbol_table;
        let ghost mixed = ta.scopes().len() == 0 && structs_declarable(old(self).struct_table.names(), program.statements@)
            && functions_declarable(ta, names, program.statements@) && forall|k: int|
            0 <= k < program.statements@.len() ==> (simple_struct(#[trigger] program.statements@[k], names)
                || closed_plain_fn(program.statements@[k], ta.next_slot()));
        self.scan_program(program)?;
        let ghost tb = self.symbol_table;
        let ghost stmts = program.statements@;

        let mut defs: Vec<type_ast::Definition> = Vec::new();
        let mut i: usize = 0;
        while i < program.statements.len()
            invariant
                self.wf(),
                stmts == program.statements@,
                i <= program.statements@.len(),
                defs@.len() == def_offset(stmts, i as int),
                forall|k: int| 0 <= k < i ==> defs_match(#[trigger] stmts[k], defs@, def_offset(stmts, k)),
                names == old(self).struct_table.names() + struct_names(program.statements@),
                (forall|k: int| 0 <= k < stmts.len() ==> simple_struct(#[trigger] stmts[k], names))
                    ==> self.struct_table.names() == names,
                mixed == (ta.scopes().len() == 0 && structs_declarable(old(self).struct_table.names(), stmts)
                    && functions_declarable(ta, names, stmts) && forall|k: int|
                    0 <= k < stmts.len() ==> (simple_struct(#[trigger] stmts[k], names) || closed_plain_fn(
                        stmts[k],
                        ta.next_slot(),
                    ))),
                ta == old(self).symbol_table,
                mixed ==> self.struct_table.names() == names && self.symbol_table.scopes() == tb.scopes()
                    && self.symbol_table.globals() == tb.globals() && self.symbol_table.next_slot() == ta.next_slot()
                    && tb.scopes().len() == 0 && forall|k: int| 0 <= k < stmts.len() ==> global_fn(tb, #[trigger] stmts[k]),
            decreases program.statements@.len() - i,
        {
            let ghost before = defs@;
            proof {
                if mixed {
                    let cur = self.symbol_table;
                    assert(simple_struct(stmts[i as int], names) || closed_plain_fn(stmts[i as int], ta.next_slot()));
                    if let ast::Statement::FunctionDef(f) = stmts[i as int] {
                        assert(global_fn(tb, stmts[i as int]));
                        assert(cur.resolved(f.name@) == tb.declared(f.name@));
                        assert forall|t2: SymbolTable| #[trigger] scope_entered(t2, cur) implies plain_block_from(
                            t2,
                            f.body.statements@,
                            0,
                            None,
                        ) by {
                            assert(t2.scopes() =~= seq![Seq::<Symbol>::empty()]);
                        }
                        assert(plain_fn(cur, f));
                    }
                }
            }
            self.analysis_definition(&program.statements[i], &mut defs)?;
            proof {
                lemma_defs_kept(stmts, before, defs@, i as int);
            }
            i = i + 1;
        }
        Ok(type_ast::Program { defs })
    }
}

} // verus!
