use tdlang::ast::{BinaryOp, BlockStmt, Expr, Program, Statement, UnaryOp};
use tdlang::lex::{Lex, Pos};
use tdlang::parser::{ParseError, Parser};
use tdlang::token::{Literal, Token, TokenKind};

fn tokens(src: &str) -> Vec<(Token, Pos)> {
    Lex::new(src).try_all().expect("lexes")
}

fn parse(src: &str) -> Result<Program, ParseError> {
    let toks = tokens(src);
    let mut parser = Parser::new(&toks);
    parser.parse_program()
}

fn expr(src: &str) -> Expr {
    let toks = tokens(src);
    let mut parser = Parser::new(&toks);
    parser.parse_expr(true).expect("parses")
}

fn int_value(e: &Expr) -> i64 {
    match e {
        Expr::Literal(Literal::Int(i)) => *i,
        _ => panic!("not an integer literal"),
    }
}

fn name(e: &Expr) -> String {
    match e {
        Expr::Path { segments } => segments[0].ident.clone(),
        _ => panic!("not a path"),
    }
}

#[test]
fn subtraction_is_left_associative() {
    match expr("8 - 3 - 1") {
        Expr::Binary { left, op: BinaryOp::Subtract, right } => {
            assert_eq!(int_value(&right), 1);
            match *left {
                Expr::Binary { left, op: BinaryOp::Subtract, right } => {
                    assert_eq!(int_value(&left), 8);
                    assert_eq!(int_value(&right), 3);
                }
                _ => panic!("inner subtraction expected"),
            }
        }
        _ => panic!("subtraction expected"),
    }
}

#[test]
fn multiplication_binds_tighter_than_addition() {
    match expr("1 + 2 * 3") {
        Expr::Binary { left, op: BinaryOp::Add, right } => {
            assert_eq!(int_value(&left), 1);
            assert!(matches!(*right, Expr::Binary { op: BinaryOp::Multiply, .. }));
        }
        _ => panic!("addition expected"),
    }
}

#[test]
fn comparison_binds_looser_than_shift() {
    match expr("a << 1 == b") {
        Expr::Binary { left, op: BinaryOp::Equal, right } => {
            assert!(matches!(*left, Expr::Binary { op: BinaryOp::ShiftLeft, .. }));
            assert_eq!(name(&right), "b");
        }
        _ => panic!("comparison expected"),
    }
}

#[test]
fn prefix_operator_applies_to_a_primary() {
    match expr("-x.y") {
        Expr::Unary { op: UnaryOp::Minus, expr } => match *expr {
            Expr::Member { target, member } => {
                assert_eq!(name(&target), "x");
                assert_eq!(member, "y");
            }
            _ => panic!("member access expected"),
        },
        _ => panic!("negation expected"),
    }
}

#[test]
fn calls_and_members_chain_left_to_right() {
    match expr("f(1, 2).g()") {
        Expr::Call { func, args } => {
            assert!(args.is_empty());
            match *func {
                Expr::Member { target, member } => {
                    assert_eq!(member, "g");
                    match *target {
                        Expr::Call { func, args } => {
                            assert_eq!(name(&func), "f");
                            assert_eq!(args.len(), 2);
                            assert_eq!(int_value(&args[1]), 2);
                        }
                        _ => panic!("inner call expected"),
                    }
                }
                _ => panic!("member expected"),
            }
        }
        _ => panic!("call expected"),
    }
}

#[test]
fn trailing_comma_in_a_call_is_an_error() {
    let toks = tokens("f(1,)");
    let mut parser = Parser::new(&toks);
    assert!(parser.parse_expr(true).is_err());
}

#[test]
fn struct_literal_is_read_where_allowed() {
    match expr("P { x: 1, y: 2 }") {
        Expr::Struct { struct_ty, fields } => {
            assert_eq!(struct_ty.segments[0].ident, "P");
            assert_eq!(fields.len(), 2);
            assert_eq!(fields[1].name, "y");
            assert_eq!(int_value(&fields[1].expr), 2);
        }
        _ => panic!("struct literal expected"),
    }
}

#[test]
fn condition_of_an_if_is_no_struct_literal() {
    let program = parse("fn main() { if a { return; } }").expect("parses");
    match &program.statements[0] {
        Statement::FunctionDef(f) => match &f.body.statements[0] {
            BlockStmt::If(i) => {
                assert_eq!(name(&i.condition), "a");
                assert_eq!(i.then_branch.statements.len(), 1);
                assert!(i.else_branch.is_none());
            }
            _ => panic!("if expected"),
        },
        _ => panic!("function expected"),
    }
}

#[test]
fn methods_and_functions_of_a_struct_are_told_apart() {
    let program = parse("struct S {\n  a: int,\n  fn new() -> S { return S { a: 1 }; }\n  fn get(self) -> int { return self.a; }\n}\n")
        .expect("parses");
    match &program.statements[0] {
        Statement::StructDef(s) => {
            assert_eq!(s.name, "S");
            assert_eq!(s.fields.len(), 1);
            assert_eq!(s.functions.len(), 1);
            assert_eq!(s.functions[0].name, "new");
            assert_eq!(s.methods.len(), 1);
            assert_eq!(s.methods[0].name, "get");
            assert!(s.methods[0].args.is_empty());
        }
        _ => panic!("struct expected"),
    }
}

#[test]
fn self_after_another_parameter_is_an_error() {
    let r = parse("struct S { fn f(a: int, self) { } }");
    assert!(matches!(r, Err(ParseError::SelfArgNotFirst { .. })));
}

#[test]
fn statements_of_a_block_in_order() {
    let program = parse("fn main() { let x = 1; ; x = 2; { return; } }").expect("parses");
    match &program.statements[0] {
        Statement::FunctionDef(f) => {
            let s = &f.body.statements;
            assert_eq!(s.len(), 3);
            assert!(matches!(&s[0], BlockStmt::Let(l) if l.var_name == "x"));
            assert!(matches!(&s[1], BlockStmt::Assign(_)));
            assert!(matches!(&s[2], BlockStmt::Block(b) if b.statements.len() == 1));
        }
        _ => panic!("function expected"),
    }
}

#[test]
fn generic_type_of_a_parameter() {
    let program = parse("fn f(v: Vec<int>) { }").expect("parses");
    match &program.statements[0] {
        Statement::FunctionDef(f) => {
            let ty = &f.args[0].type_;
            assert_eq!(ty.segments.len(), 1);
            assert_eq!(ty.segments[0].ident, "Vec");
            assert_eq!(ty.segments[0].args.len(), 1);
            assert_eq!(ty.segments[0].args[0].segments[0].ident, "int");
        }
        _ => panic!("function expected"),
    }
}

#[test]
fn stray_token_in_a_struct_names_what_may_come() {
    let toks = tokens("struct P { x: int 1 }");
    let mut parser = Parser::new(&toks);
    match parser.parse_program() {
        Err(ParseError::Unexpected { expected, found, pos }) => {
            assert_eq!(expected, vec![TokenKind::Fn, TokenKind::Ident, TokenKind::CloseBrace]);
            assert!(matches!(found, Token::Literal(Literal::Int(1))));
            let at = toks.iter().position(|(t, _)| matches!(t, Token::Literal(Literal::Int(1)))).expect("the 1");
            assert_eq!((pos.line, pos.offset), (toks[at].1.line, toks[at].1.offset));
        }
        other => panic!("unexpected result: {:?}", other.is_ok()),
    }
}

#[test]
fn missing_semicolon_after_a_statement_names_it() {
    let toks = tokens("fn main() { 1 + 2 }");
    let mut parser = Parser::new(&toks);
    match parser.parse_program() {
        Err(ParseError::Unexpected { expected, found, pos }) => {
            assert_eq!(expected, vec![TokenKind::Semicolon]);
            assert!(matches!(found, Token::CloseBrace));
            let at = toks.iter().position(|(t, _)| matches!(t, Token::CloseBrace)).expect("the brace");
            assert_eq!((pos.line, pos.offset), (toks[at].1.line, toks[at].1.offset));
        }
        other => panic!("unexpected result: {:?}", other.is_ok()),
    }
}

#[test]
fn misplaced_comma_in_call_arguments_expects_nothing() {
    let toks = tokens("f(a,)");
    let mut parser = Parser::new(&toks);
    match parser.parse_expr(true) {
        Err(ParseError::Unexpected { expected, found, .. }) => {
            assert!(expected.is_empty());
            assert!(matches!(found, Token::CloseParen));
        }
        other => panic!("unexpected result: {:?}", other.is_ok()),
    }
    let toks = tokens("(,a)");
    let mut parser = Parser::new(&toks);
    match parser.parse_fn_call_args() {
        Err(ParseError::Unexpected { expected, found, .. }) => {
            assert!(expected.is_empty());
            assert!(matches!(found, Token::Comma));
        }
        other => panic!("unexpected result: {:?}", other.is_ok()),
    }
}

#[test]
fn token_that_cannot_start_a_primary_expects_nothing() {
    let toks = tokens(", a");
    let mut parser = Parser::new(&toks);
    match parser.parse_primary(true) {
        Err(ParseError::Unexpected { expected, found, .. }) => {
            assert!(expected.is_empty());
            assert!(matches!(found, Token::Comma));
        }
        other => panic!("unexpected result: {:?}", other.is_ok()),
    }
}

#[test]
fn parameter_where_a_comma_belongs_names_what_may_come() {
    let toks = tokens("fn main(a: int b: int) {}");
    let mut parser = Parser::new(&toks);
    match parser.parse_program() {
        Err(ParseError::Unexpected { expected, found, .. }) => {
            assert_eq!(expected, vec![TokenKind::Comma, TokenKind::CloseParen]);
            assert!(matches!(found, Token::Ident(ref n) if n == "b"));
        }
        other => panic!("unexpected result: {:?}", other.is_ok()),
    }
}

#[test]
fn statement_outside_a_definition_names_what_may_come() {
    let toks = tokens("let x = 1;");
    let mut parser = Parser::new(&toks);
    match parser.parse_program() {
        Err(ParseError::Unexpected { expected, found, .. }) => {
            assert_eq!(expected, vec![TokenKind::Struct, TokenKind::Fn]);
            assert!(matches!(found, Token::Let));
        }
        other => panic!("unexpected result: {:?}", other.is_ok()),
    }
}
