use tdlang::ast::{Program, Statement};
use tdlang::bytecode::{ByteCode, Loc};
use tdlang::compiler::{compile, CompileError, ProgramError};
use tdlang::heap::Value;
use tdlang::ir::{IrError, Variable};
use tdlang::lex::{Lex, Pos};
use tdlang::package::{ConstValue, Function, Package};
use tdlang::parser::{ParseError, Parser};
use tdlang::scope::Location;
use tdlang::semantic::{analysis_block, analysis_func, Semantic, SemanticError};
use tdlang::tables::StructTable;
use tdlang::token::Token;
use tdlang::vm::{ArithOp, FloatAnswer, FloatOp, FloatRequest, Order, Outcome, Vm};

fn tokens(src: &str) -> Vec<(Token, Pos)> {
    Lex::new(src).try_all().expect("lexes")
}

fn parse(src: &str) -> Result<Program, ParseError> {
    let toks = tokens(src);
    let mut parser = Parser::new(&toks);
    parser.parse_program()
}

fn build(src: &str) -> Result<Package, ProgramError> {
    let program = parse(src).expect("parses");
    compile(&program)
}

fn host(req: &FloatRequest) -> FloatAnswer {
    let num = |v: Value| match v {
        Value::Int(i) => i as f64,
        Value::Float(b) => f64::from_bits(b),
        _ => panic!("not a number"),
    };
    let (a, b) = (num(req.left), num(req.right));
    match req.op {
        FloatOp::Arith(ArithOp::Add) => FloatAnswer::Number((a + b).to_bits()),
        FloatOp::Arith(ArithOp::Sub) => FloatAnswer::Number((a - b).to_bits()),
        FloatOp::Arith(ArithOp::Mul) => FloatAnswer::Number((a * b).to_bits()),
        FloatOp::Arith(ArithOp::Div) => FloatAnswer::Number((a / b).to_bits()),
        FloatOp::Compare(_) => FloatAnswer::Order(a.partial_cmp(&b).map(|o| match o {
            std::cmp::Ordering::Less => Order::Less,
            std::cmp::Ordering::Equal => Order::Equal,
            std::cmp::Ordering::Greater => Order::Greater,
        })),
    }
}

fn run(pkg: &Package) -> Outcome {
    let mut vm = Vm::new();
    for c in &pkg.constants {
        if !vm.add_const(c) {
            match c {
                ConstValue::Float(text) => vm.push_const(Value::Float(text.parse::<f64>().unwrap().to_bits())),
                _ => panic!("constant not added"),
            }
        }
    }
    vm.load_globals(pkg);
    assert!(vm.start(pkg));
    for _ in 0..100_000 {
        match vm.step(pkg) {
            Outcome::Running => {}
            Outcome::Float(req) => {
                let ans = host(&req);
                assert!(vm.complete_float(req, ans));
            }
            other => return other,
        }
    }
    panic!("does not finish")
}

#[test]
fn call_and_arithmetic() {
    let pkg = build("fn add(a: int, b: int) -> int { return a + b; }\nfn main() -> int { let x = add(2, 3); return x * 10; }")
        .expect("compiles");
    assert_eq!(pkg.functions.len(), 2);
    assert_eq!(pkg.entry_function, 1);
    assert_eq!(run(&pkg), Outcome::Finished(Value::Int(50)));
}

#[test]
fn while_loop_sums() {
    let src = "fn main() -> int {\n  let i = 0;\n  let s = 0;\n  while 10 > i {\n    i = i + 1;\n    s = s + i;\n  }\n  return s;\n}\n";
    let pkg = build(src).expect("compiles");
    assert_eq!(run(&pkg), Outcome::Finished(Value::Int(55)));
}

#[test]
fn struct_fields() {
    let src = "struct P { x: int, y: int }\nfn main() -> int { let p = P { x: 3, y: 4 }; return p.x * p.y; }";
    let pkg = build(src).expect("compiles");
    assert_eq!(run(&pkg), Outcome::Finished(Value::Int(12)));
}

#[test]
fn if_assigns() {
    let src = "fn max(a: int, b: int) -> int { let m = b; if a > b { m = a; } return m; }\nfn main() -> int { return max(7, 9) + max(5, 2); }";
    let pkg = build(src).expect("compiles");
    assert_eq!(run(&pkg), Outcome::Finished(Value::Int(14)));
}

#[test]
fn break_and_continue() {
    let src = "fn main() -> int { let i = 0; let s = 0; while true { i = i + 1; if i > 5 { break; } if i % 2 == 0 { continue; } s = s + i; } return s; }";
    let pkg = build(src).expect("compiles");
    assert_eq!(run(&pkg), Outcome::Finished(Value::Int(9)));
}

#[test]
fn floats_go_through_the_host() {
    let pkg = build("fn main() -> float { return 1.5 * 2.0; }").expect("compiles");
    assert_eq!(run(&pkg), Outcome::Finished(Value::Float(3.0f64.to_bits())));
}

#[test]
fn float_comparison() {
    let pkg = build("fn main() -> bool { return (1.5 < 2.5); }").expect("compiles");
    assert_eq!(run(&pkg), Outcome::Finished(Value::Bool(true)));
}

#[test]
fn division_by_zero_faults() {
    let pkg = build("fn main() -> int { let z = 0; return 7 / z; }").expect("compiles");
    assert_eq!(run(&pkg), Outcome::Fault);
}

#[test]
fn integer_division_truncates() {
    let pkg = build("fn main() -> int { let a = 0 - 7; return a / 2 + a % 2; }").expect("compiles");
    assert_eq!(run(&pkg), Outcome::Finished(Value::Int(-4)));
}

#[test]
fn shifts() {
    let pkg = build("fn main() -> int { return (1 << 4) + (64 >> 2); }").expect("compiles");
    assert_eq!(run(&pkg), Outcome::Finished(Value::Int(32)));
}

#[test]
fn string_equality() {
    let pkg = build("fn main() -> bool { return (\"ab\" == \"ab\"); }").expect("compiles");
    assert_eq!(run(&pkg), Outcome::Finished(Value::Bool(true)));
    let pkg = build("fn main() -> bool { return (\"ab\" < \"b\"); }").expect("compiles");
    assert_eq!(run(&pkg), Outcome::Finished(Value::Bool(true)));
}

#[test]
fn constants_are_shared() {
    let pkg = build("fn main() -> int { let a = 7; let b = 7; return a + b + 1; }").expect("compiles");
    assert_eq!(pkg.constants.len(), 2);
    assert_eq!(run(&pkg), Outcome::Finished(Value::Int(15)));
}

#[test]
fn missing_main_is_an_error() {
    let r = build("fn f() -> int { return 1; }");
    assert!(matches!(r, Err(ProgramError::Semantic(SemanticError::MissingEntryPoint))));
}

#[test]
fn type_mismatch_is_an_error() {
    let r = build("fn main() -> int { return 1 + true; }");
    assert!(matches!(r, Err(ProgramError::Semantic(SemanticError::TypeMistmatch))));
}

#[test]
fn undefined_name_is_an_error() {
    let r = build("fn main() -> int { return y; }");
    assert!(matches!(r, Err(ProgramError::Semantic(SemanticError::UndefinedIdent { .. }))));
}

#[test]
fn non_boolean_condition_is_an_error() {
    let r = build("fn main() -> int { if 1 { return 1; } return 2; }");
    assert!(matches!(r, Err(ProgramError::Semantic(SemanticError::NonBooleanCondition))));
}

#[test]
fn unterminated_block_is_an_error() {
    let r = build("fn main() -> int { if true { return 1; } else { return 2; } }");
    assert!(matches!(r, Err(ProgramError::Compile(CompileError::Lowering(IrError::MissingTerminator)))));
}

#[test]
fn break_outside_loop_is_an_error() {
    let r = build("fn main() { break; }");
    assert!(matches!(r, Err(ProgramError::Compile(CompileError::Lowering(IrError::BreakOutsideLoop)))));
}

#[test]
fn parse_error_reports_token() {
    let r = parse("fn main( { }");
    assert!(matches!(r, Err(ParseError::Unexpected { found: Token::OpenBrace, .. })));
}

#[test]
fn self_outside_struct_is_an_error() {
    let r = parse("fn f(self) { }");
    assert!(matches!(r, Err(ParseError::SelfArgInFunction { .. })));
}

#[test]
fn less_than_after_a_name_reads_type_arguments() {
    let r = parse("fn main() { let i = 0; while i < 10 { i = i + 1; } }");
    assert!(matches!(r, Err(ParseError::Unexpected { .. })));
}

#[test]
fn nil_function_returns_nil() {
    let pkg = build("fn main() { let x = 1; }").expect("compiles");
    assert_eq!(run(&pkg), Outcome::Finished(Value::Nil));
}

#[test]
fn package_functions_follow_the_program() {
    let pkg = build("fn main() -> int { return two() + one(); }\nfn one() -> int { return 1; }\nfn two() -> int { return 2; }")
        .expect("compiles");
    let names: Vec<String> = pkg
        .functions
        .iter()
        .map(|f| match f {
            tdlang::package::Function::Custom { name, .. } => name.clone(),
            tdlang::package::Function::Native { name } => name.clone(),
        })
        .collect();
    assert_eq!(names, vec!["main".to_string(), "one".to_string(), "two".to_string()]);
    assert_eq!(pkg.entry_function, 0);
    assert_eq!(run(&pkg), Outcome::Finished(Value::Int(3)));
}

fn compare_consts(op_ne: bool, a: ConstValue, b: ConstValue) -> Outcome {
    let dst = Loc::from_variable(Variable::Local(0));
    let (left, right) = (Loc::from_const(0), Loc::from_const(1));
    let cmp = if op_ne { ByteCode::Ne { dst, left, right } } else { ByteCode::Eq { dst, left, right } };
    let f = Function::Custom {
        name: "main".to_string(),
        codes: vec![cmp, ByteCode::Return { src: Some(dst) }],
        local_var_cnt: 1,
        temp_var_cnt: 0,
    };
    let pkg = Package { constants: vec![a, b], global: Vec::new(), structs: StructTable::new(), functions: vec![f], entry_function: 0 };
    run(&pkg)
}

#[test]
fn values_of_different_kinds_are_not_equal() {
    assert_eq!(compare_consts(true, ConstValue::Int(1), ConstValue::Nil), Outcome::Finished(Value::Bool(true)));
    assert_eq!(compare_consts(false, ConstValue::Int(1), ConstValue::Nil), Outcome::Finished(Value::Bool(false)));
    assert_eq!(compare_consts(true, ConstValue::Int(2), ConstValue::Int(2)), Outcome::Finished(Value::Bool(false)));
}

#[test]
fn struct_only_program_lacks_an_entry() {
    let r = build("struct P { x: int, y: int }");
    assert!(matches!(r, Err(ProgramError::Semantic(SemanticError::MissingEntryPoint))));
}

#[test]
fn struct_only_program_type_checks() {
    let program = parse("struct P { x: int, y: int } struct Q { p: P }").expect("parses");
    let mut semantic = Semantic::new();
    semantic.init_global_symbol().expect("natives");
    let typed = semantic.analysis_type(&program).expect("types");
    assert_eq!(typed.defs.len(), 2);
}

#[test]
fn plain_block_binds_its_lets() {
    let program = parse("fn main() { let x = 1; let y = x + 2; (y == 3); }").expect("parses");
    let mut semantic = Semantic::new();
    semantic.init_global_symbol().expect("natives");
    semantic.scan_function_defs(&program).expect("declares");
    let body = match &program.statements[0] {
        Statement::FunctionDef(f) => &f.body,
        _ => panic!("a function"),
    };
    semantic.symbol_table.enter_scope();
    let typed = analysis_block(&mut semantic, body, None).expect("types");
    assert_eq!(typed.statements.len(), 3);
    let x = semantic.symbol_table.lookup("x").expect("x is bound");
    assert_eq!(x.location, Location::Local(0));
    let y = semantic.symbol_table.lookup("y").expect("y is bound");
    assert_eq!(y.location, Location::Local(1));
    semantic.symbol_table.exit_scope();
    assert!(semantic.symbol_table.lookup("x").is_none());
}

#[test]
fn plain_function_type_checks() {
    let program = parse("fn main() { let a = true; a && false; return; }").expect("parses");
    let mut semantic = Semantic::new();
    semantic.init_global_symbol().expect("natives");
    semantic.scan_function_defs(&program).expect("declares");
    let f = match &program.statements[0] {
        Statement::FunctionDef(f) => f,
        _ => panic!("a function"),
    };
    let typed = analysis_func(&mut semantic, f, None).expect("types");
    assert_eq!(typed.name, "main");
    assert_eq!(typed.locals.len(), 1);
}

#[test]
fn closed_plain_program_type_checks() {
    let program = parse("struct P { x: int } fn main() { let x = 1 + 2; let b = (x == 3); b || false; return; }")
        .expect("parses");
    let mut semantic = Semantic::new();
    semantic.init_global_symbol().expect("natives");
    let typed = semantic.analysis_type(&program).expect("types");
    assert_eq!(typed.defs.len(), 2);
}

#[test]
fn struct_literal_in_any_field_order_type_checks() {
    let program = parse("struct P { x: int, y: bool } fn main() { let p = P { y: true, x: 1 }; return; }")
        .expect("parses");
    let mut semantic = Semantic::new();
    semantic.init_global_symbol().expect("natives");
    let typed = semantic.analysis_type(&program).expect("types");
    assert_eq!(typed.defs.len(), 2);
}

#[test]
fn struct_literal_with_unknown_field_is_an_error() {
    let program = parse("struct P { x: int } fn main() { let p = P { z: 1 }; return; }").expect("parses");
    let mut semantic = Semantic::new();
    semantic.init_global_symbol().expect("natives");
    assert!(matches!(semantic.analysis_type(&program), Err(SemanticError::UnknownField { .. })));
}
