//! The grammar of the language as functions on a token list: each takes a
//! position and gives the value of the construct that starts there (after
//! any blank tokens) with the position after it, or nothing where the
//! tokens there do not form one.
use crate::ast::UnaryOp;
use crate::lex::Pos;
use crate::ast::BinaryOp;
use crate::parser::{binary_op_of, is_blank, level_has_spec, skip_blank, token_at, ParseArgState};
use crate::syntax::{
    BindingView, BlockView, ExprView, FieldAssignView, FunctionView, SegmentView, StatementView,
    StmtView, StructView, TypeView,
};
use crate::token::{LiteralView, Token, TokenKind};
use vstd::prelude::*;

verus! {

/// The kind of the token at a position (the end of input past the last).
pub open spec fn kind_at(t: Seq<(Token, Pos)>, i: int) -> TokenKind {
    token_at(t, i)@.kind()
}

/// A token of a kind stands at a position.
pub open spec fn holds(t: Seq<(Token, Pos)>, i: int, k: TokenKind) -> bool {
    0 <= i < t.len() && kind_at(t, i) == k
}

/// The name of the identifier at a position, if one stands there.
pub open spec fn ident_at(t: Seq<(Token, Pos)>, i: int) -> Option<Seq<char>> {
    match token_at(t, i) {
        Token::Ident(name) => Some(name@),
        _ => None,
    }
}

/// The value of the literal at a position.
pub open spec fn literal_at(t: Seq<(Token, Pos)>, i: int) -> LiteralView {
    match token_at(t, i) {
        Token::Literal(l) => l@,
        _ => LiteralView::Nil,
    }
}

/// The prefix operator a token stands for.
pub open spec fn unary_op_of(t: Token) -> Option<UnaryOp> {
    match t {
        Token::Not => Some(UnaryOp::Not),
        Token::BitNot => Some(UnaryOp::BitNot),
        Token::Plus => Some(UnaryOp::Plus),
        Token::Minus => Some(UnaryOp::Minus),
        _ => None,
    }
}

/// Skipping blank tokens moves forward, and not past the end of input
/// unless it did not move.
pub proof fn lemma_skip_blank(t: Seq<(Token, Pos)>, i: int)
    ensures
        skip_blank(t, i) >= i,
        skip_blank(t, i) == i || skip_blank(t, i) <= t.len(),
        skip_blank(t, skip_blank(t, i)) == skip_blank(t, i),
    decreases t.len() - i,
{
    if 0 <= i < t.len() && t[i].0 is Whitespace || 0 <= i < t.len() && t[i].0 is NewLine {
        lemma_skip_blank(t, i + 1);
    }
}

/// A type: a path.
pub open spec fn type_at(t: Seq<(Token, Pos)>, i: int) -> Option<(TypeView, int)>
    decreases t.len() - i, 3int,
{
    match segments_at(t, i) {
        Some((segments, j)) => Some((TypeView { segments }, j)),
        None => None,
    }
}

/// A path: segments joined by `::`, where `::<..>` gives the type arguments
/// of the segment before it.
pub open spec fn segments_at(t: Seq<(Token, Pos)>, i: int) -> Option<(Seq<SegmentView>, int)>
    decreases t.len() - i, 2int,
{
    let p = skip_blank(t, i);
    proof {
        lemma_skip_blank(t, i);
    }
    match segment_at(t, p) {
        Some((s, j)) => if i <= j <= t.len() {
            segments_loop(t, j, seq![s])
        } else {
            None
        },
        None => None,
    }
}

/// The rest of a path after the segments `acc`.
pub open spec fn segments_loop(t: Seq<(Token, Pos)>, j: int, acc: Seq<SegmentView>) -> Option<
    (Seq<SegmentView>, int),
>
    decreases t.len() - j, 1int,
{
    let p = skip_blank(t, j);
    let q = skip_blank(t, p + 1);
    proof {
        lemma_skip_blank(t, j);
        lemma_skip_blank(t, p + 1);
    }
    if !holds(t, p, TokenKind::Path) {
        Some((acc, p))
    } else if holds(t, q, TokenKind::Less) {
        match type_args_at(t, q) {
            Some((args, k)) => if j < k <= t.len() {
                segments_loop(
                    t,
                    k,
                    acc.update(acc.len() - 1, SegmentView { ident: acc.last().ident, args }),
                )
            } else {
                None
            },
            None => None,
        }
    } else {
        match segment_at(t, q) {
            Some((s, k)) => if j < k <= t.len() {
                segments_loop(t, k, acc.push(s))
            } else {
                None
            },
            None => None,
        }
    }
}

/// A path segment: a name with its type arguments, if any.
pub open spec fn segment_at(t: Seq<(Token, Pos)>, i: int) -> Option<(SegmentView, int)>
    decreases t.len() - i, 1int,
{
    let p = skip_blank(t, i);
    let q = skip_blank(t, p + 1);
    proof {
        lemma_skip_blank(t, i);
        lemma_skip_blank(t, p + 1);
    }
    match ident_at(t, p) {
        Some(ident) => if holds(t, q, TokenKind::Less) {
            match type_args_at(t, q) {
                Some((args, j)) => Some((SegmentView { ident, args }, j)),
                None => None,
            }
        } else {
            Some((SegmentView { ident, args: Seq::empty() }, q))
        },
        None => None,
    }
}

/// Type arguments: types between `<` and `>`, each maybe followed by a
/// comma.
pub open spec fn type_args_at(t: Seq<(Token, Pos)>, i: int) -> Option<(Seq<TypeView>, int)>
    decreases t.len() - i, 1int,
{
    let p = skip_blank(t, i);
    proof {
        lemma_skip_blank(t, i);
    }
    if holds(t, p, TokenKind::Less) {
        type_args_loop(t, p + 1, Seq::empty())
    } else {
        None
    }
}

/// The rest of type arguments after the types `acc`.
pub open spec fn type_args_loop(t: Seq<(Token, Pos)>, j: int, acc: Seq<TypeView>) -> Option<
    (Seq<TypeView>, int),
>
    decreases t.len() - j, 4int,
{
    let p = skip_blank(t, j);
    proof {
        lemma_skip_blank(t, j);
    }
    if holds(t, p, TokenKind::Greater) {
        Some((acc, p + 1))
    } else {
        match type_at(t, p) {
            Some((ty, k)) => {
                let q = skip_blank(t, k);
                let next = if holds(t, q, TokenKind::Comma) {
                    q + 1
                } else {
                    q
                };
                if j < next <= t.len() {
                    type_args_loop(t, next, acc.push(ty))
                } else {
                    None
                }
            },
            None => None,
        }
    }
}

/// An expression whose binary operators are of a precedence level `lv` or
/// tighter (`level_has_spec` lists them, loosest first); a struct literal
/// is allowed only where `s`.
pub open spec fn level_at(t: Seq<(Token, Pos)>, i: int, lv: int, s: bool) -> Option<(ExprView, int)>
    decreases t.len() - i, 12 - lv,
{
    let p = skip_blank(t, i);
    proof {
        lemma_skip_blank(t, i);
    }
    if !(0 <= lv <= 8) {
        None
    } else {
        let first = if lv == 8 {
            factor_at(t, p, s)
        } else {
            level_at(t, p, lv + 1, s)
        };
        match first {
            Some((e, j)) => if i <= j <= t.len() {
                level_loop(t, j, lv, s, e)
            } else {
                None
            },
            None => None,
        }
    }
}

/// The rest of a left-associative chain of the operators of a level after
/// the expression `acc`.
pub open spec fn level_loop(t: Seq<(Token, Pos)>, j: int, lv: int, s: bool, acc: ExprView) -> Option<
    (ExprView, int),
>
    decreases t.len() - j, 0int,
{
    let p = skip_blank(t, j);
    let q = skip_blank(t, p + 1);
    proof {
        lemma_skip_blank(t, j);
        lemma_skip_blank(t, p + 1);
    }
    if !(0 <= lv <= 8 && 0 <= p < t.len() && level_has_spec(lv as u8, token_at(t, p))) {
        Some((acc, p))
    } else {
        match binary_op_of(token_at(t, p)) {
            Some(op) => {
                let right = if lv == 8 {
                    factor_at(t, q, s)
                } else {
                    level_at(t, q, lv + 1, s)
                };
                match right {
                    Some((r, k)) => if j < k <= t.len() {
                        level_loop(
                            t,
                            k,
                            lv,
                            s,
                            ExprView::Binary { left: Box::new(acc), op, right: Box::new(r) },
                        )
                    } else {
                        None
                    },
                    None => None,
                }
            },
            None => None,
        }
    }
}

/// A token after which an operand of precedence level `lv` or tighter
/// does not go on: no binary operator of those levels, no `.` or `(`, and
/// no blank.
pub open spec fn ends_operand(tok: Token, lv: int) -> bool {
    &&& forall|l: int| lv <= l <= 8 ==> !#[trigger] level_has_spec(l as u8, tok)
    &&& tok@.kind() != TokenKind::Dot
    &&& tok@.kind() != TokenKind::OpenParen
    &&& !is_blank(tok)
}

/// A chain of operators of a level stops at a token that ends operands of
/// that level.
proof fn lemma_loop_stops(t: Seq<(Token, Pos)>, j: int, lv: int, s: bool, acc: ExprView)
    requires
        0 <= j <= t.len(),
        0 <= lv <= 8,
        ends_operand(token_at(t, j), lv),
    ensures
        level_loop(t, j, lv, s, acc) == Some((acc, j)),
{
    assert(skip_blank(t, j) == j);
    assert(!level_has_spec(lv as u8, token_at(t, j)));
}

/// A literal followed by a token that ends operands of level `lv` is an
/// operand of that level on its own.
proof fn lemma_literal_operand(t: Seq<(Token, Pos)>, k: int, lv: int, s: bool)
    requires
        0 <= k < t.len(),
        t[k].0 is Literal,
        0 <= lv <= 8,
        ends_operand(token_at(t, k + 1), lv),
    ensures
        level_at(t, k, lv, s) == Some((ExprView::Literal(literal_at(t, k)), k + 1)),
    decreases 8 - lv,
{
    let lit = ExprView::Literal(literal_at(t, k));
    assert(skip_blank(t, k) == k);
    if lv < 8 {
        lemma_literal_operand(t, k, lv + 1, s);
    } else {
        assert(skip_blank(t, k + 1) == k + 1);
        assert(primary_base(t, k, s) == Ok::<(ExprView, int), Option<(Seq<TokenKind>, int)>>((lit, k + 1)));
        assert(postfix_loop(t, k + 1, lit) == Some((lit, k + 1)));
        assert(factor_at(t, k, s) == Some((lit, k + 1)));
    }
    lemma_loop_stops(t, k + 1, lv, s, lit);
}

/// `&&` binds tighter than `||`: of three literals, `a || b && c` is
/// `a || (b && c)` and `a && b || c` is `(a && b) || c`, whatever ends the
/// expression after them.
pub proof fn law_and_binds_tighter_than_or(t: Seq<(Token, Pos)>, i: int, s: bool)
    requires
        0 <= i,
        i + 5 <= t.len(),
        t[i].0 is Literal,
        t[i + 2].0 is Literal,
        t[i + 4].0 is Literal,
        ends_operand(token_at(t, i + 5), 0),
    ensures
        (t[i + 1].0 == Token::Or && t[i + 3].0 == Token::And) ==> level_at(t, i, 0, s) == Some(
            (
                ExprView::Binary {
                    left: Box::new(ExprView::Literal(literal_at(t, i))),
                    op: BinaryOp::Or,
                    right: Box::new(
                        ExprView::Binary {
                            left: Box::new(ExprView::Literal(literal_at(t, i + 2))),
                            op: BinaryOp::And,
                            right: Box::new(ExprView::Literal(literal_at(t, i + 4))),
                        },
                    ),
                },
                i + 5,
            ),
        ),
        (t[i + 1].0 == Token::And && t[i + 3].0 == Token::Or) ==> level_at(t, i, 0, s) == Some(
            (
                ExprView::Binary {
                    left: Box::new(
                        ExprView::Binary {
                            left: Box::new(ExprView::Literal(literal_at(t, i))),
                            op: BinaryOp::And,
                            right: Box::new(ExprView::Literal(literal_at(t, i + 2))),
                        },
                    ),
                    op: BinaryOp::Or,
                    right: Box::new(ExprView::Literal(literal_at(t, i + 4))),
                },
                i + 5,
            ),
        ),
{
    let a = ExprView::Literal(literal_at(t, i));
    let b = ExprView::Literal(literal_at(t, i + 2));
    let c = ExprView::Literal(literal_at(t, i + 4));
    assert(skip_blank(t, i) == i);
    assert(skip_blank(t, i + 2) == i + 2);
    assert(skip_blank(t, i + 4) == i + 4);
    if t[i + 1].0 == Token::Or && t[i + 3].0 == Token::And {
        assert(skip_blank(t, i + 1) == i + 1);
        assert(skip_blank(t, i + 3) == i + 3);
        lemma_literal_operand(t, i, 1, s);
        lemma_literal_operand(t, i + 2, 2, s);
        lemma_literal_operand(t, i + 4, 2, s);
        let bc = ExprView::Binary { left: Box::new(b), op: BinaryOp::And, right: Box::new(c) };
        lemma_loop_stops(t, i + 5, 1, s, bc);
        assert(level_loop(t, i + 3, 1, s, b) == Some((bc, i + 5)));
        assert(level_at(t, i + 2, 1, s) == Some((bc, i + 5)));
        let abc = ExprView::Binary { left: Box::new(a), op: BinaryOp::Or, right: Box::new(bc) };
        lemma_loop_stops(t, i + 5, 0, s, abc);
        assert(level_loop(t, i + 1, 0, s, a) == Some((abc, i + 5)));
    }
    if t[i + 1].0 == Token::And && t[i + 3].0 == Token::Or {
        assert(skip_blank(t, i + 1) == i + 1);
        assert(skip_blank(t, i + 3) == i + 3);
        lemma_literal_operand(t, i, 2, s);
        lemma_literal_operand(t, i + 2, 2, s);
        lemma_literal_operand(t, i + 4, 1, s);
        let ab = ExprView::Binary { left: Box::new(a), op: BinaryOp::And, right: Box::new(b) };
        lemma_loop_stops(t, i + 3, 1, s, ab);
        assert(level_loop(t, i + 1, 1, s, a) == Some((ab, i + 3)));
        assert(level_at(t, i, 1, s) == Some((ab, i + 3)));
        let abc = ExprView::Binary { left: Box::new(ab), op: BinaryOp::Or, right: Box::new(c) };
        lemma_loop_stops(t, i + 5, 0, s, abc);
        assert(level_loop(t, i + 3, 0, s, ab) == Some((abc, i + 5)));
    }
}

/// The precedence of the binary operators, loosest first: `||`; `&&`;
/// the comparisons; `|`; `^`; `&`; the shifts; `+` and `-`; `*`, `/` and
/// `%`.
pub open spec fn precedence(tok: Token) -> Option<int> {
    match tok {
        Token::Or => Some(0),
        Token::And => Some(1),
        Token::Equal | Token::NotEqual | Token::Greater | Token::GreaterEqual | Token::Less
        | Token::LessEqual => Some(2),
        Token::BitOr => Some(3),
        Token::BitXor => Some(4),
        Token::BitAnd => Some(5),
        Token::ShiftLeft | Token::ShiftRight => Some(6),
        Token::Plus | Token::Minus => Some(7),
        Token::Star | Token::Slash | Token::Percent => Some(8),
        _ => None,
    }
}

/// A binary operator is read at its precedence level only, and ends
/// operands of the tighter levels.
proof fn lemma_operator_levels(tok: Token)
    requires
        precedence(tok) is Some,
    ensures
        forall|l: int| 0 <= l <= 8 ==> (level_has_spec(l as u8, tok) <==> precedence(tok) == Some(l)),
        ends_operand(tok, precedence(tok)->0 + 1),
        tok@.kind() != TokenKind::Dot,
        tok@.kind() != TokenKind::OpenParen,
        !is_blank(tok),
        binary_op_of(tok) is Some,
        0 <= precedence(tok)->0 <= 8,
{
}

/// A literal followed by a token that ends operands of level `lv` is a
/// factor, and an operand of that level, on its own.
proof fn lemma_literal_factor(t: Seq<(Token, Pos)>, k: int, s: bool)
    requires
        0 <= k < t.len(),
        t[k].0 is Literal,
        token_at(t, k + 1)@.kind() != TokenKind::Dot,
        token_at(t, k + 1)@.kind() != TokenKind::OpenParen,
        !is_blank(token_at(t, k + 1)),
    ensures
        factor_at(t, k, s) == Some((ExprView::Literal(literal_at(t, k)), k + 1)),
{
    let lit = ExprView::Literal(literal_at(t, k));
    assert(skip_blank(t, k) == k);
    assert(skip_blank(t, k + 1) == k + 1);
    assert(primary_base(t, k, s) == Ok::<(ExprView, int), Option<(Seq<TokenKind>, int)>>((lit, k + 1)));
    assert(postfix_loop(t, k + 1, lit) == Some((lit, k + 1)));
}

/// `a x b` for literals, followed by a token that ends operands of the
/// operator's level, is an operand of each level from `lo` up to the
/// operator's own.
proof fn lemma_binary_operand(t: Seq<(Token, Pos)>, k: int, lv: int, s: bool)
    requires
        0 <= k,
        k + 3 <= t.len(),
        t[k].0 is Literal,
        t[k + 2].0 is Literal,
        precedence(t[k + 1].0) is Some,
        0 <= lv <= precedence(t[k + 1].0)->0,
        ends_operand(token_at(t, k + 3), lv),
    ensures
        level_at(t, k, lv, s) == Some(
            (
                ExprView::Binary {
                    left: Box::new(ExprView::Literal(literal_at(t, k))),
                    op: binary_op_of(t[k + 1].0)->0,
                    right: Box::new(ExprView::Literal(literal_at(t, k + 2))),
                },
                k + 3,
            ),
        ),
    decreases precedence(t[k + 1].0)->0 - lv,
{
    let x = t[k + 1].0;
    let lx = precedence(x)->0;
    lemma_operator_levels(x);
    let e = ExprView::Binary {
        left: Box::new(ExprView::Literal(literal_at(t, k))),
        op: binary_op_of(x)->0,
        right: Box::new(ExprView::Literal(literal_at(t, k + 2))),
    };
    assert(skip_blank(t, k) == k);
    assert(skip_blank(t, k + 1) == k + 1);
    assert(skip_blank(t, k + 2) == k + 2);
    if lv < lx {
        lemma_binary_operand(t, k, lv + 1, s);
        lemma_loop_stops(t, k + 3, lv, s, e);
    } else {
        let a = ExprView::Literal(literal_at(t, k));
        let b = ExprView::Literal(literal_at(t, k + 2));
        if lx == 8 {
            lemma_literal_factor(t, k, s);
            lemma_literal_factor(t, k + 2, s);
        } else {
            lemma_literal_operand(t, k, lx + 1, s);
            lemma_literal_operand(t, k + 2, lx + 1, s);
        }
        lemma_loop_stops(t, k + 3, lx, s, e);
        assert(level_loop(t, k + 1, lx, s, a) == Some((e, k + 3)));
    }
}

/// Operators group by their precedence, and those of one precedence from
/// the left: of three literals with operators `x` and `y`, `a x b y c` is
/// `a x (b y c)` where `y` binds tighter than `x`, and `(a x b) y c`
/// otherwise, whatever ends the expression after them.
pub proof fn law_operators_group_by_precedence(t: Seq<(Token, Pos)>, i: int, s: bool)
    requires
        0 <= i,
        i + 5 <= t.len(),
        t[i].0 is Literal,
        t[i + 2].0 is Literal,
        t[i + 4].0 is Literal,
        precedence(t[i + 1].0) is Some,
        precedence(t[i + 3].0) is Some,
        ends_operand(token_at(t, i + 5), 0),
    ensures
        ({
            let a = ExprView::Literal(literal_at(t, i));
            let b = ExprView::Literal(literal_at(t, i + 2));
            let c = ExprView::Literal(literal_at(t, i + 4));
            let x = binary_op_of(t[i + 1].0)->0;
            let y = binary_op_of(t[i + 3].0)->0;
            &&& precedence(t[i + 1].0)->0 < precedence(t[i + 3].0)->0 ==> level_at(t, i, 0, s) == Some(
                (
                    ExprView::Binary {
                        left: Box::new(a),
                        op: x,
                        right: Box::new(ExprView::Binary { left: Box::new(b), op: y, right: Box::new(c) }),
                    },
                    i + 5,
                ),
            )
            &&& precedence(t[i + 1].0)->0 >= precedence(t[i + 3].0)->0 ==> level_at(t, i, 0, s) == Some(
                (
                    ExprView::Binary {
                        left: Box::new(ExprView::Binary { left: Box::new(a), op: x, right: Box::new(b) }),
                        op: y,
                        right: Box::new(c),
                    },
                    i + 5,
                ),
            )
        }),
{
    let tx = t[i + 1].0;
    let ty = t[i + 3].0;
    lemma_operator_levels(tx);
    lemma_operator_levels(ty);
    let lx = precedence(tx)->0;
    let ly = precedence(ty)->0;
    lemma_grouped(t, i, 0, s);
}

/// The grouping of `a x b y c`, at every level up to the looser operator's.
proof fn lemma_grouped(t: Seq<(Token, Pos)>, i: int, lv: int, s: bool)
    requires
        0 <= i,
        i + 5 <= t.len(),
        t[i].0 is Literal,
        t[i + 2].0 is Literal,
        t[i + 4].0 is Literal,
        precedence(t[i + 1].0) is Some,
        precedence(t[i + 3].0) is Some,
        ends_operand(token_at(t, i + 5), 0),
        0 <= lv,
        lv <= precedence(t[i + 1].0)->0,
        lv <= precedence(t[i + 3].0)->0,
    ensures
        ({
            let a = ExprView::Literal(literal_at(t, i));
            let b = ExprView::Literal(literal_at(t, i + 2));
            let c = ExprView::Literal(literal_at(t, i + 4));
            let x = binary_op_of(t[i + 1].0)->0;
            let y = binary_op_of(t[i + 3].0)->0;
            &&& precedence(t[i + 1].0)->0 < precedence(t[i + 3].0)->0 ==> level_at(t, i, lv, s) == Some(
                (
                    ExprView::Binary {
                        left: Box::new(a),
                        op: x,
                        right: Box::new(ExprView::Binary { left: Box::new(b), op: y, right: Box::new(c) }),
                    },
                    i + 5,
                ),
            )
            &&& precedence(t[i + 1].0)->0 >= precedence(t[i + 3].0)->0 ==> level_at(t, i, lv, s) == Some(
                (
                    ExprView::Binary {
                        left: Box::new(ExprView::Binary { left: Box::new(a), op: x, right: Box::new(b) }),
                        op: y,
                        right: Box::new(c),
                    },
                    i + 5,
                ),
            )
        }),
    decreases 8 - lv,
{
    let tx = t[i + 1].0;
    let ty = t[i + 3].0;
    lemma_operator_levels(tx);
    lemma_operator_levels(ty);
    let lx = precedence(tx)->0;
    let ly = precedence(ty)->0;
    let a = ExprView::Literal(literal_at(t, i));
    let b = ExprView::Literal(literal_at(t, i + 2));
    let c = ExprView::Literal(literal_at(t, i + 4));
    let x = binary_op_of(tx)->0;
    let y = binary_op_of(ty)->0;
    let bc = ExprView::Binary { left: Box::new(b), op: y, right: Box::new(c) };
    let ab = ExprView::Binary { left: Box::new(a), op: x, right: Box::new(b) };
    let r = if lx < ly {
        ExprView::Binary { left: Box::new(a), op: x, right: Box::new(bc) }
    } else {
        ExprView::Binary { left: Box::new(ab), op: y, right: Box::new(c) }
    };
    assert(skip_blank(t, i) == i);
    assert(skip_blank(t, i + 1) == i + 1);
    assert(skip_blank(t, i + 2) == i + 2);
    assert(skip_blank(t, i + 3) == i + 3);
    assert(skip_blank(t, i + 4) == i + 4);
    lemma_loop_stops(t, i + 5, lv, s, r);
    if lv < lx && lv < ly {
        lemma_grouped(t, i, lv + 1, s);
    } else if lx < ly {
        // lv == lx: `a` alone, then `x`, then `b y c` as a tighter operand.
        lemma_literal_operand(t, i, lx + 1, s);
        lemma_binary_operand(t, i + 2, lx + 1, s);
        assert(level_loop(t, i + 1, lx, s, a) == Some((r, i + 5)));
    } else if lx == ly {
        if lx == 8 {
            lemma_literal_factor(t, i, s);
            lemma_literal_factor(t, i + 2, s);
            lemma_literal_factor(t, i + 4, s);
        } else {
            lemma_literal_operand(t, i, lx + 1, s);
            lemma_literal_operand(t, i + 2, lx + 1, s);
            lemma_literal_operand(t, i + 4, lx + 1, s);
        }
        assert(level_loop(t, i + 3, lx, s, ab) == Some((r, i + 5)));
        assert(level_loop(t, i + 1, lx, s, a) == Some((r, i + 5)));
    } else {
        // lv == ly < lx: `a x b` as a tighter operand, then `y`, then `c`.
        lemma_binary_operand(t, i, ly + 1, s);
        lemma_literal_operand(t, i + 4, ly + 1, s);
        assert(level_loop(t, i + 3, ly, s, ab) == Some((r, i + 5)));
    }
}

/// A factor: a primary expression, maybe after one of the prefix
/// operators `!`, `~`, `+` and `-`.
pub open spec fn factor_at(t: Seq<(Token, Pos)>, i: int, s: bool) -> Option<(ExprView, int)>
    decreases t.len() - i, 3int,
{
    let p = skip_blank(t, i);
    proof {
        lemma_skip_blank(t, i);
    }
    match unary_op_of(token_at(t, p)) {
        Some(op) => if 0 <= p < t.len() {
            match primary_at(t, p + 1, s) {
                Ok((e, j)) => Some((ExprView::Unary { op, expr: Box::new(e) }, j)),
                Err(_) => None,
            }
        } else {
            None
        },
        None => match primary_at(t, p, s) {
            Ok(r) => Some(r),
            Err(_) => None,
        },
    }
}

/// A primary expression: a parenthesised expression, a path or struct
/// literal, a literal or `self`, followed by any number of field accesses
/// and calls. Where it is malformed, the failure may name the kinds
/// expected at a position (none, for a token that cannot start one).
pub open spec fn primary_at(t: Seq<(Token, Pos)>, i: int, s: bool) -> Result<
    (ExprView, int),
    Option<(Seq<TokenKind>, int)>,
>
    decreases t.len() - i, 2int,
{
    match primary_base(t, i, s) {
        Ok((e, j)) => if i < j <= t.len() {
            match postfix_loop(t, j, e) {
                Some(r) => Ok(r),
                None => Err(None),
            }
        } else {
            Err(None)
        },
        Err(f) => Err(f),
    }
}

/// The path of the receiver: `self`.
pub open spec fn self_path() -> Seq<SegmentView> {
    seq![SegmentView { ident: seq!['s', 'e', 'l', 'f'], args: Seq::empty() }]
}

/// A primary expression without the field accesses and calls after it.
pub open spec fn primary_base(t: Seq<(Token, Pos)>, i: int, s: bool) -> Result<
    (ExprView, int),
    Option<(Seq<TokenKind>, int)>,
>
    decreases t.len() - i, 1int,
{
    let p = skip_blank(t, i);
    proof {
        lemma_skip_blank(t, i);
    }
    if holds(t, p, TokenKind::OpenParen) {
        match level_at(t, p + 1, 0, true) {
            Some((e, j)) => {
                let q = skip_blank(t, j);
                if holds(t, q, TokenKind::CloseParen) {
                    Ok((e, q + 1))
                } else {
                    Err(Some((seq![TokenKind::CloseParen], q)))
                }
            },
            None => Err(None),
        }
    } else if holds(t, p, TokenKind::Ident) {
        match segments_at(t, p) {
            Some((segments, k)) => {
                let q = skip_blank(t, k);
                if s && holds(t, q, TokenKind::OpenBrace) {
                    let r = skip_blank(t, q + 1);
                    if i < r <= t.len() {
                        match struct_fields_loop(t, r, Seq::empty()) {
                            Some((fields, m)) => Ok(
                                (ExprView::Struct { struct_ty: TypeView { segments }, fields }, m),
                            ),
                            None => Err(None),
                        }
                    } else {
                        Err(None)
                    }
                } else {
                    Ok((ExprView::Path { segments }, q))
                }
            },
            None => Err(None),
        }
    } else if holds(t, p, TokenKind::Literal) {
        Ok((ExprView::Literal(literal_at(t, p)), p + 1))
    } else if holds(t, p, TokenKind::SelfArg) {
        Ok((ExprView::Path { segments: self_path() }, p + 1))
    } else {
        Err(Some((Seq::empty(), p)))
    }
}

/// The rest of the fields of a struct literal after the fields `acc`: each
/// `name: expr`, maybe followed by a comma, up to `}`.
pub open spec fn struct_fields_loop(t: Seq<(Token, Pos)>, j: int, acc: Seq<FieldAssignView>) -> Option<
    (Seq<FieldAssignView>, int),
>
    decreases t.len() - j, 0int,
{
    let p = skip_blank(t, j);
    let q = skip_blank(t, p + 1);
    let r = skip_blank(t, q + 1);
    proof {
        lemma_skip_blank(t, j);
        lemma_skip_blank(t, p + 1);
        lemma_skip_blank(t, q + 1);
    }
    if holds(t, p, TokenKind::CloseBrace) {
        Some((acc, p + 1))
    } else {
        match ident_at(t, p) {
            Some(name) => if holds(t, q, TokenKind::Colon) {
                match level_at(t, r, 0, true) {
                    Some((e, k)) => {
                        let u = skip_blank(t, k);
                        let next = if holds(t, u, TokenKind::Comma) {
                            u + 1
                        } else {
                            u
                        };
                        if j < next <= t.len() {
                            struct_fields_loop(t, next, acc.push(FieldAssignView { name, expr: e }))
                        } else {
                            None
                        }
                    },
                    None => None,
                }
            } else {
                None
            },
            None => None,
        }
    }
}

/// The field accesses and calls after the expression `acc`.
pub open spec fn postfix_loop(t: Seq<(Token, Pos)>, j: int, acc: ExprView) -> Option<(ExprView, int)>
    decreases t.len() - j, 2int,
{
    let p = skip_blank(t, j);
    let q = skip_blank(t, p + 1);
    proof {
        lemma_skip_blank(t, j);
        lemma_skip_blank(t, p + 1);
    }
    if holds(t, p, TokenKind::Dot) {
        match ident_at(t, q) {
            Some(member) => if j < q + 1 <= t.len() {
                postfix_loop(t, q + 1, ExprView::Member { target: Box::new(acc), member })
            } else {
                None
            },
            None => None,
        }
    } else if holds(t, p, TokenKind::OpenParen) {
        match call_args_at(t, p) {
            Ok((args, k)) => if j < k <= t.len() {
                postfix_loop(t, k, ExprView::Call { func: Box::new(acc), args })
            } else {
                None
            },
            Err(_) => None,
        }
    } else {
        Some((acc, p))
    }
}

/// The arguments of a call: expressions between `(` and `)`, separated by
/// commas. Where the arguments are malformed, the failure may name the
/// kinds expected at a position (none, for a misplaced comma or `)`).
pub open spec fn call_args_at(t: Seq<(Token, Pos)>, i: int) -> Result<
    (Seq<ExprView>, int),
    Option<(Seq<TokenKind>, int)>,
>
    decreases t.len() - i, 1int,
{
    let p = skip_blank(t, i);
    proof {
        lemma_skip_blank(t, i);
    }
    if holds(t, p, TokenKind::OpenParen) {
        call_loop(t, p + 1, false, true, Seq::empty())
    } else {
        Err(Some((seq![TokenKind::OpenParen], p)))
    }
}

/// The rest of the arguments of a call after the arguments `acc`; a comma
/// may come only where `comma_ok`, and `)` only where `paren_ok`.
pub open spec fn call_loop(
    t: Seq<(Token, Pos)>,
    j: int,
    comma_ok: bool,
    paren_ok: bool,
    acc: Seq<ExprView>,
) -> Result<(Seq<ExprView>, int), Option<(Seq<TokenKind>, int)>>
    decreases t.len() - j, 13int,
{
    let p = skip_blank(t, j);
    proof {
        lemma_skip_blank(t, j);
    }
    if holds(t, p, TokenKind::Comma) {
        if comma_ok {
            call_loop(t, p + 1, false, false, acc)
        } else {
            Err(Some((Seq::empty(), p)))
        }
    } else if holds(t, p, TokenKind::CloseParen) {
        if paren_ok {
            Ok((acc, p + 1))
        } else {
            Err(Some((Seq::empty(), p)))
        }
    } else {
        match level_at(t, p, 0, true) {
            Some((e, k)) => if j < k <= t.len() {
                call_loop(t, k, true, true, acc.push(e))
            } else {
                Err(None)
            },
            None => Err(None),
        }
    }
}

/// A block: statements between `{` and `}`.
pub open spec fn block_at(t: Seq<(Token, Pos)>, i: int) -> Result<(BlockView, int), Failure>
    decreases t.len() - i, 4int,
{
    let p = skip_blank(t, i);
    proof {
        lemma_skip_blank(t, i);
    }
    if holds(t, p, TokenKind::OpenBrace) {
        block_body_at(t, p + 1)
    } else {
        Err(Failure::Expected { kinds: seq![TokenKind::OpenBrace], at: p })
    }
}

/// The statements of a block after its `{`, up to and with its `}`.
pub open spec fn block_body_at(t: Seq<(Token, Pos)>, j: int) -> Result<(BlockView, int), Failure>
    decreases t.len() - j, 3int,
{
    body_loop(t, j, Seq::empty())
}

/// The rest of a block after the statements `acc`; a `;` alone is skipped.
pub open spec fn body_loop(t: Seq<(Token, Pos)>, j: int, acc: Seq<StmtView>) -> Result<(BlockView, int), Failure>
    decreases t.len() - j, 2int,
{
    let p = skip_blank(t, j);
    proof {
        lemma_skip_blank(t, j);
    }
    if holds(t, p, TokenKind::CloseBrace) {
        Ok((BlockView { statements: acc }, p + 1))
    } else if holds(t, p, TokenKind::Semicolon) {
        body_loop(t, p + 1, acc)
    } else {
        match stmt_at(t, p) {
            Ok((st, k)) => if j < k <= t.len() {
                body_loop(t, k, acc.push(st))
            } else {
                Err(Failure::Unexpected)
            },
            Err(f) => Err(f),
        }
    }
}

/// A statement that starts at a position: `let`, `return`, a nested block,
/// `if`, `while`, `break`, `continue`, or an expression or assignment
/// ended by `;`. Where a token of a kind is missing, the failure names the
/// kind and the position of the token found in its place.
pub open spec fn stmt_at(t: Seq<(Token, Pos)>, p: int) -> Result<(StmtView, int), Failure>
    decreases t.len() - p, 1int,
{
    let q = skip_blank(t, p + 1);
    proof {
        lemma_skip_blank(t, p + 1);
    }
    if holds(t, p, TokenKind::Let) {
        match ident_at(t, q) {
            Some(var_name) => {
                let r = skip_blank(t, q + 1);
                if holds(t, r, TokenKind::Assign) {
                    match level_at(t, skip_blank(t, r + 1), 7, true) {
                        Some((expr, k)) => Ok((StmtView::Let { var_name, expr }, k)),
                        None => Err(Failure::Unexpected),
                    }
                } else {
                    Err(Failure::Expected { kinds: seq![TokenKind::Assign], at: r })
                }
            },
            None => Err(Failure::Expected { kinds: seq![TokenKind::Ident], at: q }),
        }
    } else if holds(t, p, TokenKind::Return) {
        if holds(t, q, TokenKind::Semicolon) {
            Ok((StmtView::Return(None), q + 1))
        } else {
            match level_at(t, q, 7, true) {
                Some((e, k)) => Ok((StmtView::Return(Some(e)), k)),
                None => Err(Failure::Unexpected),
            }
        }
    } else if holds(t, p, TokenKind::OpenBrace) {
        match block_body_at(t, p + 1) {
            Ok((b, k)) => Ok((StmtView::Block(b), k)),
            Err(f) => Err(f),
        }
    } else if holds(t, p, TokenKind::If) {
        match level_at(t, q, 0, false) {
            Some((condition, k1)) => {
                let r = skip_blank(t, k1);
                if p < r <= t.len() {
                    match block_at(t, r) {
                        Ok((then_branch, k2)) => {
                            let u = skip_blank(t, k2);
                            let w = skip_blank(t, u + 1);
                            if holds(t, u, TokenKind::Else) {
                                if p < w <= t.len() {
                                    match block_at(t, w) {
                                        Ok((b, k3)) => Ok(
                                            (
                                                StmtView::If {
                                                    condition,
                                                    then_branch,
                                                    else_branch: Some(b),
                                                },
                                                k3,
                                            ),
                                        ),
                                        Err(f) => Err(f),
                                    }
                                } else {
                                    Err(Failure::Unexpected)
                                }
                            } else {
                                Ok((StmtView::If { condition, then_branch, else_branch: None }, u))
                            }
                        },
                        Err(f) => Err(f),
                    }
                } else {
                    Err(Failure::Unexpected)
                }
            },
            None => Err(Failure::Unexpected),
        }
    } else if holds(t, p, TokenKind::While) {
        match level_at(t, q, 0, false) {
            Some((condition, k1)) => {
                let r = skip_blank(t, k1);
                if p < r <= t.len() {
                    match block_at(t, r) {
                        Ok((block, k2)) => Ok((StmtView::While { condition, block }, k2)),
                        Err(f) => Err(f),
                    }
                } else {
                    Err(Failure::Unexpected)
                }
            },
            None => Err(Failure::Unexpected),
        }
    } else if holds(t, p, TokenKind::Break) {
        if holds(t, q, TokenKind::Semicolon) {
            Ok((StmtView::Break, q + 1))
        } else {
            Err(Failure::Expected { kinds: seq![TokenKind::Semicolon], at: q })
        }
    } else if holds(t, p, TokenKind::Continue) {
        if holds(t, q, TokenKind::Semicolon) {
            Ok((StmtView::Continue, q + 1))
        } else {
            Err(Failure::Expected { kinds: seq![TokenKind::Semicolon], at: q })
        }
    } else {
        match level_at(t, p, 0, true) {
            Some((e, k1)) => {
                let r = skip_blank(t, k1);
                if holds(t, r, TokenKind::Assign) {
                    match level_at(t, skip_blank(t, r + 1), 0, true) {
                        Some((v, k2)) => if holds(t, k2, TokenKind::Semicolon) {
                            Ok((StmtView::Assign { target: e, expr: v }, k2 + 1))
                        } else {
                            Err(Failure::Expected { kinds: seq![TokenKind::Semicolon], at: k2 })
                        },
                        None => Err(Failure::Unexpected),
                    }
                } else if holds(t, r, TokenKind::Semicolon) {
                    Ok((StmtView::Expr(e), r + 1))
                } else {
                    Err(Failure::Expected { kinds: seq![TokenKind::Semicolon], at: r })
                }
            },
            None => Err(Failure::Unexpected),
        }
    }
}

/// The state of a parameter list after a parameter or a comma.
pub open spec fn arg_state_after(st: ParseArgState) -> ParseArgState {
    match st {
        ParseArgState::Arg => ParseArgState::Comma,
        _ => ParseArgState::Arg,
    }
}

/// Why the tokens at a position do not form a function, a struct or a
/// program: an unexpected token, one at position `at` where a token of one
/// of `kinds` was expected, `self` after the first parameter, `self` in a
/// function outside a struct.
pub enum Failure {
    Unexpected,
    Expected { kinds: Seq<TokenKind>, at: int },
    SelfArgNotFirst,
    SelfArgInFunction,
}

/// The kinds of token that may come next in a parameter list in state
/// `st`.
pub open spec fn arg_expected(st: ParseArgState) -> Seq<TokenKind> {
    match st {
        ParseArgState::Start => seq![TokenKind::SelfArg, TokenKind::CloseParen, TokenKind::Ident],
        ParseArgState::Comma => seq![TokenKind::Ident],
        ParseArgState::Arg => seq![TokenKind::Comma, TokenKind::CloseParen],
    }
}

/// The rest of a parameter list in state `st` after the parameters `acc`,
/// up to and with its `)`: the parameters, whether `self` was among them,
/// and the position after the `)`. `self` may come only first, and only
/// where `method_ok`.
pub open spec fn params_loop(
    t: Seq<(Token, Pos)>,
    j: int,
    st: ParseArgState,
    is_method: bool,
    method_ok: bool,
    acc: Seq<BindingView>,
) -> Result<(Seq<BindingView>, bool, int), Failure>
    decreases t.len() - j,
{
    let p = skip_blank(t, j);
    let q = skip_blank(t, p + 1);
    let r = skip_blank(t, q + 1);
    proof {
        lemma_skip_blank(t, j);
    }
    if holds(t, p, TokenKind::SelfArg) {
        if st == ParseArgState::Arg {
            Err(Failure::Expected { kinds: arg_expected(st), at: p })
        } else if st != ParseArgState::Start {
            Err(Failure::SelfArgNotFirst)
        } else if !method_ok {
            Err(Failure::SelfArgInFunction)
        } else {
            params_loop(t, p + 1, arg_state_after(st), true, method_ok, acc)
        }
    } else if holds(t, p, TokenKind::Ident) {
        if st == ParseArgState::Arg {
            Err(Failure::Expected { kinds: arg_expected(st), at: p })
        } else if !holds(t, q, TokenKind::Colon) {
            Err(Failure::Expected { kinds: seq![TokenKind::Colon], at: q })
        } else {
            match type_at(t, r) {
                Some((type_, k)) => if j < k <= t.len() {
                    params_loop(
                        t,
                        k,
                        arg_state_after(st),
                        is_method,
                        method_ok,
                        acc.push(BindingView { name: ident_at(t, p)->0, type_ }),
                    )
                } else {
                    Err(Failure::Unexpected)
                },
                None => Err(Failure::Unexpected),
            }
        }
    } else if holds(t, p, TokenKind::CloseParen) {
        if st == ParseArgState::Comma {
            Err(Failure::Expected { kinds: arg_expected(st), at: p })
        } else {
            Ok((acc, is_method, p + 1))
        }
    } else if holds(t, p, TokenKind::Comma) {
        if st == ParseArgState::Comma {
            Err(Failure::Expected { kinds: arg_expected(st), at: p })
        } else {
            params_loop(t, p + 1, arg_state_after(st), is_method, method_ok, acc)
        }
    } else {
        Err(Failure::Expected { kinds: arg_expected(st), at: p })
    }
}

/// A function: `fn name(params) -> type { body }`, with whether it is a
/// method (`self` is its first parameter, which `method_ok` allows).
#[verifier::opaque]
pub open spec fn function_at(t: Seq<(Token, Pos)>, i: int, method_ok: bool) -> Result<
    (FunctionView, bool, int),
    Failure,
> {
    let p = skip_blank(t, i);
    let q = skip_blank(t, p + 1);
    let r = skip_blank(t, q + 1);
    if !holds(t, p, TokenKind::Fn) {
        Err(Failure::Expected { kinds: seq![TokenKind::Fn], at: p })
    } else if ident_at(t, q) is None {
        Err(Failure::Expected { kinds: seq![TokenKind::Ident], at: q })
    } else if !holds(t, r, TokenKind::OpenParen) {
        Err(Failure::Expected { kinds: seq![TokenKind::OpenParen], at: r })
    } else {
        match params_loop(t, r + 1, ParseArgState::Start, false, method_ok, Seq::empty()) {
            Ok((args, is_method, k)) => {
                let name = ident_at(t, q)->0;
                let u = skip_blank(t, k);
                if holds(t, u, TokenKind::Arrow) {
                    match type_at(t, skip_blank(t, u + 1)) {
                        Some((ty, k2)) => match block_at(t, skip_blank(t, k2)) {
                            Ok((body, k3)) => Ok(
                                (FunctionView { name, args, return_type: Some(ty), body }, is_method, k3),
                            ),
                            Err(f) => Err(f),
                        },
                        None => Err(Failure::Unexpected),
                    }
                } else if holds(t, u, TokenKind::OpenBrace) {
                    match block_at(t, u) {
                        Ok((body, k3)) => Ok(
                            (FunctionView { name, args, return_type: None, body }, is_method, k3),
                        ),
                        Err(f) => Err(f),
                    }
                } else {
                    Err(Failure::Expected { kinds: seq![TokenKind::Arrow, TokenKind::OpenBrace], at: u })
                }
            },
            Err(f) => Err(f),
        }
    }
}

/// A function outside a struct: one that is no method.
pub open spec fn fn_at(t: Seq<(Token, Pos)>, i: int) -> Result<(FunctionView, int), Failure> {
    match function_at(t, i, false) {
        Ok((f, is_method, k)) => if is_method {
            Err(Failure::Unexpected)
        } else {
            Ok((f, k))
        },
        Err(f) => Err(f),
    }
}

/// A field of a struct: `name: type`, maybe followed by a comma.
#[verifier::opaque]
pub open spec fn field_at(t: Seq<(Token, Pos)>, i: int) -> Option<(BindingView, int)> {
    let p = skip_blank(t, i);
    let q = skip_blank(t, p + 1);
    let r = skip_blank(t, q + 1);
    if !holds(t, q, TokenKind::Colon) {
        None
    } else {
        match (ident_at(t, p), type_at(t, r)) {
            (Some(name), Some((type_, k))) => {
                let u = skip_blank(t, k);
                Some(
                    (
                        BindingView { name, type_ },
                        if holds(t, u, TokenKind::Comma) {
                            u + 1
                        } else {
                            u
                        },
                    ),
                )
            },
            _ => None,
        }
    }
}

/// The rest of the members of a struct after those in `acc`: fields,
/// functions and methods, up to and with the `}`.
pub open spec fn members_loop(t: Seq<(Token, Pos)>, j: int, acc: StructView) -> Result<(StructView, int), Failure>
    decreases t.len() - j,
{
    let p = skip_blank(t, j);
    if holds(t, p, TokenKind::Fn) {
        match function_at(t, p, true) {
            Ok((f, is_method, k)) => if j < k <= t.len() {
                members_loop(
                    t,
                    k,
                    if is_method {
                        StructView {
                            name: acc.name,
                            fields: acc.fields,
                            functions: acc.functions,
                            methods: acc.methods.push(f),
                        }
                    } else {
                        StructView {
                            name: acc.name,
                            fields: acc.fields,
                            functions: acc.functions.push(f),
                            methods: acc.methods,
                        }
                    },
                )
            } else {
                Err(Failure::Unexpected)
            },
            Err(e) => Err(e),
        }
    } else if holds(t, p, TokenKind::Ident) {
        match field_at(t, p) {
            Some((field, k)) => if j < k <= t.len() {
                members_loop(
                    t,
                    k,
                    StructView {
                        name: acc.name,
                        fields: acc.fields.push(field),
                        functions: acc.functions,
                        methods: acc.methods,
                    },
                )
            } else {
                Err(Failure::Unexpected)
            },
            None => Err(Failure::Unexpected),
        }
    } else if holds(t, p, TokenKind::CloseBrace) {
        Ok((acc, p + 1))
    } else {
        Err(Failure::Expected { kinds: seq![TokenKind::Fn, TokenKind::Ident, TokenKind::CloseBrace], at: p })
    }
}

/// A struct: `struct name { members }`.
pub open spec fn struct_at(t: Seq<(Token, Pos)>, i: int) -> Result<(StructView, int), Failure> {
    let p = skip_blank(t, i);
    let q = skip_blank(t, p + 1);
    let r = skip_blank(t, q + 1);
    if !holds(t, p, TokenKind::Struct) {
        Err(Failure::Expected { kinds: seq![TokenKind::Struct], at: p })
    } else if ident_at(t, q) is None {
        Err(Failure::Expected { kinds: seq![TokenKind::Ident], at: q })
    } else if !holds(t, r, TokenKind::OpenBrace) {
        Err(Failure::Expected { kinds: seq![TokenKind::OpenBrace], at: r })
    } else {
        members_loop(
            t,
            r + 1,
            StructView {
                name: ident_at(t, q)->0,
                fields: Seq::empty(),
                functions: Seq::empty(),
                methods: Seq::empty(),
            },
        )
    }
}

/// The rest of a program after the definitions `acc`, up to the end of
/// input.
pub open spec fn program_loop(t: Seq<(Token, Pos)>, j: int, acc: Seq<StatementView>) -> Result<
    (Seq<StatementView>, int),
    Failure,
>
    decreases t.len() - j,
{
    let p = skip_blank(t, j);
    if holds(t, p, TokenKind::Struct) {
        match struct_at(t, p) {
            Ok((d, k)) => if j < k <= t.len() {
                program_loop(t, k, acc.push(StatementView::StructDef(d)))
            } else {
                Err(Failure::Unexpected)
            },
            Err(e) => Err(e),
        }
    } else if holds(t, p, TokenKind::Fn) {
        match fn_at(t, p) {
            Ok((f, k)) => if j < k <= t.len() {
                program_loop(t, k, acc.push(StatementView::FunctionDef(f)))
            } else {
                Err(Failure::Unexpected)
            },
            Err(e) => Err(e),
        }
    } else if kind_at(t, p) == TokenKind::Eof {
        Ok((acc, p))
    } else {
        Err(Failure::Expected { kinds: seq![TokenKind::Struct, TokenKind::Fn], at: p })
    }
}

/// A program: definitions of structs and functions up to the end of input.
pub open spec fn program_at(t: Seq<(Token, Pos)>, i: int) -> Result<(Seq<StatementView>, int), Failure> {
    program_loop(t, i, Seq::empty())
}

} // verus!
