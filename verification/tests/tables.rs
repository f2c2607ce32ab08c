use tdlang::builtin::{builtin_timestamp, builtin_vec_len, builtin_vec_push};
use tdlang::bytecode::{Area, Loc};
use tdlang::compiler::Compiler;
use tdlang::generator::{JumpIndex, NameMap};
use tdlang::heap::Value;
use tdlang::ir::{BlockId, IrBuilder, Operand, Variable};
use tdlang::package::ConstValue;
use tdlang::parser::ParseArgState;
use tdlang::scope::{Indent, Location, Symbol, SymbolKind, SymbolTable};
use tdlang::semantic::SemanticError;
use tdlang::tables::{FunctionTable, StructTable};
use tdlang::token::TokenKind;
use tdlang::ty::{GenericFn, GenericSlot, GenericType, TypeId, TypeKind, TypeSlot, TypeTable};
use tdlang::type_ast::{Block, FunctionDef, StructDef};
use tdlang::vm::Vm;

#[test]
fn name_map_insert_and_lookup() {
    let mut m: NameMap<i32> = NameMap::new();
    assert_eq!(m.insert("a", 10), 0);
    assert_eq!(m.insert("b", 20), 1);
    assert_eq!(m.insert("a", 30), 0);
    assert!(m.contains_key("a"));
    assert!(!m.contains_key("c"));
    assert_eq!(m.get_idx("b"), Some(1));
    assert_eq!(m.get_name("a"), Some(&10));
    assert_eq!(m.get(1), Some(&20));
    assert_eq!(m.get(2), None);
    assert_eq!(m.get_full("b"), Some((1, &20)));
    if let Some(v) = m.get_name_mut("b") {
        *v = 21;
    }
    assert_eq!(m.get_name("b"), Some(&21));
    assert_eq!(m.data(), &vec![10, 21]);
}

#[test]
fn jump_index_extend_appends() {
    let mut a = JumpIndex::new();
    a.breaks.push(1);
    a.continues.push(2);
    let mut b = JumpIndex::new();
    b.breaks.push(3);
    b.breaks.push(4);
    a.extend(b);
    assert_eq!(a.breaks, vec![1, 3, 4]);
    assert_eq!(a.continues, vec![2]);
}

#[test]
fn loc_from_const_and_variable() {
    let l = Loc::from_const(5);
    assert_eq!(l.0, 0xC005);
    assert_eq!(l.decode(), (Area::Const, 5));
    assert_eq!(Loc::from_variable(Variable::Local(3)).decode(), (Area::Local, 3));
    assert_eq!(Loc::from_variable(Variable::Temp(7)).decode(), (Area::Temp, 7));
    assert_eq!(Loc::from_variable(Variable::Global(0x3fff)).decode(), (Area::Global, 0x3fff));
}

#[test]
fn generic_fn_monomorphization() {
    let f = GenericFn {
        args: vec![TypeSlot::Dyn(GenericSlot(0)), TypeSlot::Static(TypeId(2))],
        return_ty: Some(TypeSlot::Dyn(GenericSlot(0))),
    };
    match f.monomorphization(&[TypeId(7), TypeId(2)]) {
        Ok(TypeKind::NativeFunction { args, return_ty }) => {
            assert_eq!(args, vec![TypeId(7), TypeId(2)]);
            assert_eq!(return_ty, TypeId(7));
        }
        _ => panic!("expected a native function"),
    }
}

#[test]
fn generic_type_monomorphization() {
    match GenericType::Vec.monomorphization(&[TypeId(3)]) {
        Ok(TypeKind::Vec { element }) => assert_eq!(element, TypeId(3)),
        _ => panic!("expected a vector"),
    }
}

#[test]
fn as_callable_of_function_types() {
    let f = TypeKind::Fn { args: vec![TypeId(2)], return_ty: TypeId(1) };
    let (args, ret) = f.as_callable().expect("callable");
    assert_eq!(args, &[TypeId(2)]);
    assert_eq!(ret, TypeId(1));
    assert!(TypeKind::Int.as_callable().is_none());
}

#[test]
fn type_table_interns() {
    let mut t = TypeTable::new();
    assert_eq!(t.intern(TypeKind::Int), TypeId(2));
    let v = t.intern(TypeKind::Vec { element: TypeId(2) });
    assert_eq!(v, TypeId(5));
    assert_eq!(t.intern(TypeKind::Vec { element: TypeId(2) }), TypeId(5));
    assert!(matches!(t.get(TypeId(5)), Some(TypeKind::Vec { element: TypeId(2) })));
    assert!(t.get(TypeId(6)).is_none());
}

#[test]
fn struct_table_ids() {
    let mut t = StructTable::new();
    let a = t.insert(StructDef { name: "A".to_string(), fields: Vec::new() }).expect("new");
    let b = t.insert(StructDef { name: "B".to_string(), fields: Vec::new() }).expect("new");
    assert_eq!(a.0, 0);
    assert_eq!(b.0, 1);
    assert!(matches!(
        t.insert(StructDef { name: "A".to_string(), fields: Vec::new() }),
        Err(SemanticError::DuplicateDef { .. })
    ));
    assert_eq!(t.id("B").map(|i| i.0), Some(1));
    assert_eq!(t.get_by_name("A").map(|d| d.name.clone()), Some("A".to_string()));
    assert!(t.get_by_name("C").is_none());
}

#[test]
fn symbol_table_scopes() {
    let mut s = SymbolTable::new();
    assert!(matches!(s.insert("g", TypeId(2)), Ok(Location::Global(0))));
    s.enter_scope();
    assert!(matches!(s.insert("x", TypeId(1)), Ok(Location::Local(0))));
    assert!(matches!(s.insert("x", TypeId(1)), Err(SemanticError::DuplicateDef { .. })));
    s.enter_scope();
    assert!(matches!(s.insert("x", TypeId(3)), Ok(Location::Local(1))));
    assert_eq!(s.lookup("x").and_then(|sym| sym.ty()), Some(TypeId(3)));
    s.exit_scope();
    assert_eq!(s.lookup("x").and_then(|sym| sym.ty()), Some(TypeId(1)));
    assert!(matches!(s.lookup("g").map(|sym| sym.location), Some(Location::Global(0))));
    assert!(s.lookup("y").is_none());
    s.exit_scope();
    assert!(s.lookup("x").is_none());
    assert_eq!(s.global_count(), 1);
}

#[test]
fn indent_and_symbol_types() {
    let i = Indent::Local { name: "a".to_string(), ty: TypeId(4), idx: 0 };
    assert_eq!(i.ty(), Some(TypeId(4)));
    let g = Indent::GenericFn { name: "p".to_string(), f: GenericFn { args: Vec::new(), return_ty: None }, idx: 0 };
    assert_eq!(g.ty(), None);
    let s = Symbol { name: "a".to_string(), location: Location::Local(0), kind: SymbolKind::Normal { type_id: TypeId(2) } };
    assert_eq!(s.ty(), Some(TypeId(2)));
}

#[test]
fn parse_arg_states() {
    let mut st = ParseArgState::Start;
    assert!(st.can_be_self() && st.can_be_arg() && st.can_be_close() && st.can_be_comma());
    assert_eq!(st.expect(), vec![TokenKind::SelfArg, TokenKind::CloseParen, TokenKind::Ident]);
    st.next_state();
    assert_eq!(st, ParseArgState::Arg);
    assert!(!st.can_be_arg() && st.can_be_close() && st.can_be_comma() && !st.can_be_self());
    assert_eq!(st.expect(), vec![TokenKind::Comma, TokenKind::CloseParen]);
    st.next_state();
    assert_eq!(st, ParseArgState::Comma);
    assert!(st.can_be_arg() && !st.can_be_close() && !st.can_be_comma());
    assert_eq!(st.expect(), vec![TokenKind::Ident]);
}

#[test]
fn compiler_interns_constants() {
    let mut c = Compiler::new();
    let a = c.intern_const(ConstValue::Int(1)).expect("fits");
    let b = c.intern_const(ConstValue::String("s".to_string())).expect("fits");
    let a2 = c.intern_const(ConstValue::Int(1)).expect("fits");
    assert_eq!(a, Loc::from_const(0));
    assert_eq!(b, Loc::from_const(1));
    assert_eq!(a2, a);
    assert_eq!(c.operand_to_loc(&Operand::Variable(Variable::Temp(2))).expect("fits"), Loc(0x4002));
    assert_eq!(c.into_constants().len(), 2);
}

#[test]
fn ir_builder_blocks() {
    let mut b = IrBuilder::new();
    assert_eq!(b.add_temp(TypeId(2)), 0);
    assert_eq!(b.new_block(), BlockId(1));
    assert!(!b.has_term());
}

#[test]
fn vec_push_builtin() {
    let mut vm = Vm::new();
    vm.push_stack(Value::Fn(0));
    vm.push_stack(Value::Int(1));
    vm.push_stack(Value::Int(2));
    builtin_vec_push(&mut vm);
    assert_eq!(vm.pop_stack(), Some(Value::Nil));
    assert_eq!(vm.pop_stack(), None);
}

#[test]
fn vec_len_builtin_of_a_value_that_is_no_vector() {
    let mut vm = Vm::new();
    vm.push_stack(Value::Int(7));
    vm.push_stack(Value::Fn(0));
    vm.push_stack(Value::Int(3));
    builtin_vec_len(&mut vm);
    assert_eq!(vm.pop_stack(), Some(Value::Int(0)));
    assert_eq!(vm.pop_stack(), Some(Value::Int(7)));
    assert_eq!(vm.pop_stack(), None);
}

#[test]
fn timestamp_builtin() {
    let mut vm = Vm::new();
    vm.push_stack(Value::Fn(0));
    vm.push_stack(Value::Int(5));
    let r = builtin_timestamp(&mut vm, 1, 1.25f64.to_bits());
    assert_eq!(r, Value::Float(1.25f64.to_bits()));
    assert_eq!(vm.pop_stack(), None);
}

fn function_def(name: &str, idx: usize) -> FunctionDef {
    FunctionDef {
        name: name.to_string(),
        args: Vec::new(),
        return_type: None,
        locals: Vec::new(),
        body: Block { statements: Vec::new() },
        idx,
    }
}

#[test]
fn function_table_ids_and_duplicates() {
    let mut t = FunctionTable::new();
    let a = t.insert(function_def("main", 0)).ok().unwrap();
    let b = t.insert(function_def("helper", 1)).ok().unwrap();
    assert_eq!(a.0, 0);
    assert_eq!(b.0, 1);
    assert!(matches!(
        t.insert(function_def("main", 2)),
        Err(SemanticError::DuplicateDef { ref name }) if name == "main"
    ));
    assert_eq!(t.id("helper").map(|id| id.0), Some(1));
    assert!(t.id("missing").is_none());
    assert_eq!(t.get(a).map(|f| f.idx), Some(0));
    assert_eq!(t.get_by_name("helper").map(|f| f.idx), Some(1));
    if let Some(f) = t.get_by_name_mut("helper") {
        f.idx = 7;
    }
    assert_eq!(t.get(b).map(|f| f.idx), Some(7));
    if let Some(f) = t.get_mut(a) {
        f.idx = 9;
    }
    assert_eq!(t.get_by_name("main").map(|f| f.idx), Some(9));
    assert!(t.get(tdlang::ty::FunctionId(5)).is_none());
}

#[test]
fn name_map_full_lookup_is_index_then_value() {
    let mut m: NameMap<i32> = NameMap::new();
    m.insert("x", 7);
    m.insert("y", 8);
    for name in ["x", "y", "z"] {
        let composed = m.get_idx(name).and_then(|i| m.get(i).map(|v| (i, v)));
        assert_eq!(m.get_full(name), composed);
    }
    assert_eq!(m.data().len(), 2);
}
