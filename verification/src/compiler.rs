use crate::ast::{BinaryOp, UnaryOp};
use crate::bytecode::{ByteCode, LOC_LIMIT, Loc, const_loc, var_fits, var_loc};
use crate::ir::{BasicBlock, Instruction, Operand, Terminator, Variable};
use crate::package::{ConstValue, ConstView, Function, Package, function_name};
use crate::heap::Value;
use crate::semantic::{
    Semantic, SemanticError, assoc_name, defs_fn_names, fn_names_of, lemma_defs_fn_names_append, lemma_program_fn_names,
    lemma_struct_program_fn_names, program_fn_names, simple_struct, struct_names, structs_declarable,
};
use crate::ast;
use crate::text::str_eq;
use crate::ir;
use crate::ir::{IrBuilder, IrError, IrModel, all_terminated, finish_model, fn_matches, get_params, lower_stmts};
use crate::type_ast;
use crate::vm::{Outcome, VmModel};
use indexmap::IndexSet;
use vstd::prelude::*;

verus! {

#[verifier::external_type_specification]
#[verifier::external_body]
#[verifier::reject_recursive_types(T)]
#[verifier::reject_recursive_types(S)]
pub struct ExIndexSet<T, S>(IndexSet<T, S>);

/// The constants an `IndexSet` holds, in insertion order.
pub uninterp spec fn const_items(s: IndexSet<ConstValue>) -> Seq<ConstView>;

/// Calls `IndexSet::new`: a set that holds nothing.
#[verifier::external_body]
fn const_set_new() -> (s: IndexSet<ConstValue>)
    ensures
        const_items(s) == Seq::<ConstView>::empty(),
{
    IndexSet::new()
}

/// Calls `IndexSet::len`, the number of items.
#[verifier::external_body]
fn const_set_len(s: &IndexSet<ConstValue>) -> (n: usize)
    ensures
        n == const_items(*s).len(),
{
    s.len()
}

/// Calls `IndexSet::get_index_of`: the position of the item equal to `v`
/// (the derived equality of `ConstValue`, which compares strings by their
/// characters), if there is one.
#[verifier::external_body]
fn const_set_index_of(s: &IndexSet<ConstValue>, v: &ConstValue) -> (r: Option<usize>)
    ensures
        match r {
            Some(i) => i < const_items(*s).len() && const_items(*s)[i as int] == v@,
            None => !const_items(*s).contains(v@),
        },
{
    s.get_index_of(v)
}

/// Calls `IndexSet::insert`: an item not in the set yet goes at the end, and
/// true is returned; where an equal item is there the set is left as it was
/// and false is returned.
#[verifier::external_body]
fn const_set_insert(s: &mut IndexSet<ConstValue>, v: ConstValue) -> (added: bool)
    ensures
        added == !const_items(*old(s)).contains(v@),
        added ==> const_items(*final(s)) == const_items(*old(s)).push(v@),
        !added ==> const_items(*final(s)) == const_items(*old(s)),
{
    s.insert(v)
}

/// Calls `IndexSet::pop`, which removes and returns the last item and keeps
/// the order of the others.
#[verifier::external_body]
fn const_set_pop(s: &mut IndexSet<ConstValue>) -> (r: Option<ConstValue>)
    ensures
        const_items(*old(s)).len() == 0 ==> r is None && const_items(*final(s)) == const_items(*old(s)),
        const_items(*old(s)).len() > 0 ==> (r matches Some(v) && v@ == const_items(*old(s)).last())
            && const_items(*final(s)) == const_items(*old(s)).drop_last(),
{
    s.pop()
}

/// The items of the set, in their order, in a vector.
fn const_set_into_vec(s: IndexSet<ConstValue>) -> (v: Vec<ConstValue>)
    ensures
        v@.map_values(|c: ConstValue| c@) == const_items(s),
{
    let ghost orig = const_items(s);
    let mut s = s;
    let mut rev: Vec<ConstValue> = Vec::new();
    loop
        invariant
            rev@.len() <= orig.len(),
            const_items(s) == orig.take(orig.len() - rev@.len()),
            forall|k: int| 0 <= k < rev@.len() ==> (#[trigger] rev@[k])@ == orig[orig.len() - 1 - k],
        ensures
            rev@.len() == orig.len(),
            forall|k: int| 0 <= k < rev@.len() ==> (#[trigger] rev@[k])@ == orig[orig.len() - 1 - k],
        decreases orig.len() - rev@.len(),
    {
        match const_set_pop(&mut s) {
            Some(c) => {
                rev.push(c);
                proof {
                    assert(const_items(s) =~= orig.take(orig.len() - rev@.len()));
                }
            },
            None => {
                break;
            },
        }
    }
    let mut out: Vec<ConstValue> = Vec::new();
    while rev.len() > 0
        invariant
            out@.len() + rev@.len() == orig.len(),
            forall|k: int| 0 <= k < out@.len() ==> (#[trigger] out@[k])@ == orig[k],
            forall|k: int| 0 <= k < rev@.len() ==> (#[trigger] rev@[k])@ == orig[orig.len() - 1 - k],
        decreases rev@.len(),
    {
        match rev.pop() {
            Some(c) => {
                out.push(c);
            },
            None => {},
        }
    }
    proof {
        assert(out@.map_values(|c: ConstValue| c@) =~= orig);
    }
    out
}

/// Why a function cannot be compiled.
#[derive(Clone, Copy, PartialEq, Eq, Structural, Debug)]
pub enum CompileError {
    /// A variable's or a constant's index does not fit a location.
    LocationOutOfRange,
    /// A branch's condition is a constant other than a boolean.
    BadCondition,
    /// A branch or jump goes to a block the function does not have.
    UnknownBlock,
    /// The function cannot be lowered to IR.
    Lowering(IrError),
}

/// The constants after `v` is interned: `v` is added at the end unless it
/// is there already.
pub open spec fn interned(items: Seq<ConstView>, v: ConstView) -> Seq<ConstView> {
    if items.contains(v) {
        items
    } else {
        items.push(v)
    }
}

/// The constant an operand stands for, if it is one.
pub open spec fn operand_const(op: Operand) -> Option<ConstView> {
    match op {
        Operand::Variable(_) => None,
        Operand::ConstNil => Some(ConstView::Nil),
        Operand::ConstBool(b) => Some(ConstView::Bool(b)),
        Operand::ConstInt(i) => Some(ConstView::Int(i)),
        Operand::ConstFloat(s) => Some(ConstView::Float(s@)),
        Operand::ConstString(s) => Some(ConstView::String(s@)),
    }
}

/// The location of a variable, where its index fits.
pub open spec fn var_location(v: Variable) -> Option<Loc> {
    if var_fits(v) {
        Some(var_loc(v))
    } else {
        None
    }
}

/// The constants after an operand is turned into a location, and the
/// location (`None` where its index does not fit): a variable's own
/// location, or that of the constant once interned.
pub open spec fn operand_loc(items: Seq<ConstView>, op: Operand) -> (Seq<ConstView>, Option<Loc>) {
    match operand_const(op) {
        None => (items, var_location(op->Variable_0)),
        Some(c) => {
            let after = interned(items, c);
            let i = after.index_of(c);
            (after, if i < LOC_LIMIT { Some(const_loc(i)) } else { None })
        },
    }
}

/// The constants after two operands are turned into locations, in order,
/// and the two locations.
pub open spec fn operand_locs(items: Seq<ConstView>, a: Operand, b: Operand) -> (
    Seq<ConstView>,
    Option<(Loc, Loc)>,
) {
    let (i1, la) = operand_loc(items, a);
    let (i2, lb) = operand_loc(i1, b);
    (
        i2,
        match (la, lb) {
            (Some(x), Some(y)) => Some((x, y)),
            _ => None,
        },
    )
}

/// The bytecode of a binary operation.
pub open spec fn binary_code(op: BinaryOp, dst: Loc, left: Loc, right: Loc) -> ByteCode {
    match op {
        BinaryOp::Add => ByteCode::Add { dst, left, right },
        BinaryOp::Subtract => ByteCode::Sub { dst, left, right },
        BinaryOp::Multiply => ByteCode::Mul { dst, left, right },
        BinaryOp::Divide => ByteCode::Div { dst, left, right },
        BinaryOp::Modulo => ByteCode::Mod { dst, left, right },
        BinaryOp::BitAnd => ByteCode::BitAnd { dst, left, right },
        BinaryOp::BitOr => ByteCode::BitOr { dst, left, right },
        BinaryOp::BitXor => ByteCode::BitXor { dst, left, right },
        BinaryOp::ShiftLeft => ByteCode::Shl { dst, left, right },
        BinaryOp::ShiftRight => ByteCode::Shr { dst, left, right },
        BinaryOp::Equal => ByteCode::Eq { dst, left, right },
        BinaryOp::NotEqual => ByteCode::Ne { dst, left, right },
        BinaryOp::Less => ByteCode::Lt { dst, left, right },
        BinaryOp::LessEqual => ByteCode::Le { dst, left, right },
        BinaryOp::Greater => ByteCode::Gt { dst, left, right },
        BinaryOp::GreaterEqual => ByteCode::Ge { dst, left, right },
        BinaryOp::And => ByteCode::And { dst, left, right },
        BinaryOp::Or => ByteCode::Or { dst, left, right },
    }
}

/// An IR operation on two variables that hold integers, compiled to
/// bytecode and run, stores in its destination what the source operator
/// means of the two integers: `==`, `!=`, `<`, `<=`, `>`, `>=` whether that
/// comparison holds; `+`, `-`, `*` the sum, difference and product where
/// they fit 64 bits. The machine then moves to the next instruction.
pub proof fn law_compiled_int_ops(
    items: Seq<ConstView>,
    dv: Variable,
    op: BinaryOp,
    lv: Variable,
    rv: Variable,
    m: VmModel,
    pkg: &Package,
    h: u64,
    a: i64,
    b: i64,
)
    requires
        var_location(dv) is Some && m.holds(var_location(dv)->0),
        var_location(lv) is Some && m.holds(var_location(lv)->0) && m.read(var_location(lv)->0) == Value::Int(a),
        var_location(rv) is Some && m.holds(var_location(rv)->0) && m.read(var_location(rv)->0) == Value::Int(b),
    ensures
        ({
            let inst = Instruction::BinaryOp { dst: dv, op, left: Operand::Variable(lv), right: Operand::Variable(rv) };
            let code = inst_code(items, inst).1;
            let d = var_location(dv)->0;
            &&& code is Some
            &&& op == BinaryOp::Equal ==> m.exec(pkg, code->0, h) == (m.next().write(d, Value::Bool(a == b)), Outcome::Running)
            &&& op == BinaryOp::NotEqual ==> m.exec(pkg, code->0, h) == (m.next().write(d, Value::Bool(a != b)), Outcome::Running)
            &&& op == BinaryOp::Less ==> m.exec(pkg, code->0, h) == (m.next().write(d, Value::Bool(a < b)), Outcome::Running)
            &&& op == BinaryOp::LessEqual ==> m.exec(pkg, code->0, h) == (m.next().write(d, Value::Bool(a <= b)), Outcome::Running)
            &&& op == BinaryOp::Greater ==> m.exec(pkg, code->0, h) == (m.next().write(d, Value::Bool(a > b)), Outcome::Running)
            &&& op == BinaryOp::GreaterEqual ==> m.exec(pkg, code->0, h) == (m.next().write(d, Value::Bool(a >= b)), Outcome::Running)
            &&& (op == BinaryOp::Add && i64::MIN <= a + b <= i64::MAX) ==> m.exec(pkg, code->0, h) == (m.next().write(d, Value::Int((a + b) as i64)), Outcome::Running)
            &&& (op == BinaryOp::Subtract && i64::MIN <= a - b <= i64::MAX) ==> m.exec(pkg, code->0, h) == (m.next().write(d, Value::Int((a - b) as i64)), Outcome::Running)
            &&& (op == BinaryOp::Multiply && i64::MIN <= a * b <= i64::MAX) ==> m.exec(pkg, code->0, h) == (m.next().write(d, Value::Int((a * b) as i64)), Outcome::Running)
            &&& (op == BinaryOp::Divide && a >= 0 && b > 0) ==> m.exec(pkg, code->0, h) == (m.next().write(d, Value::Int((a / b) as i64)), Outcome::Running)
            &&& (op == BinaryOp::Modulo && a >= 0 && b > 0) ==> m.exec(pkg, code->0, h) == (m.next().write(d, Value::Int((a % b) as i64)), Outcome::Running)
            &&& op == BinaryOp::BitAnd ==> m.exec(pkg, code->0, h) == (m.next().write(d, Value::Int(a & b)), Outcome::Running)
            &&& op == BinaryOp::BitOr ==> m.exec(pkg, code->0, h) == (m.next().write(d, Value::Int(a | b)), Outcome::Running)
            &&& op == BinaryOp::BitXor ==> m.exec(pkg, code->0, h) == (m.next().write(d, Value::Int(a ^ b)), Outcome::Running)
        }),
{
    if op == BinaryOp::Divide && a >= 0 && b > 0 {
        assert(0 <= a / b <= a) by (nonlinear_arith)
            requires
                a >= 0,
                b > 0,
        ;
    }
    if op == BinaryOp::Modulo && a >= 0 && b > 0 {
        assert(0 <= a % b < b);
    }
}

/// An IR `&&` or `||` on two variables that hold booleans, compiled to
/// bytecode and run, stores the conjunction or disjunction of the two.
pub proof fn law_compiled_bool_ops(
    items: Seq<ConstView>,
    dv: Variable,
    op: BinaryOp,
    lv: Variable,
    rv: Variable,
    m: VmModel,
    pkg: &Package,
    h: u64,
    a: bool,
    b: bool,
)
    requires
        var_location(dv) is Some && m.holds(var_location(dv)->0),
        var_location(lv) is Some && m.holds(var_location(lv)->0) && m.read(var_location(lv)->0) == Value::Bool(a),
        var_location(rv) is Some && m.holds(var_location(rv)->0) && m.read(var_location(rv)->0) == Value::Bool(b),
    ensures
        ({
            let inst = Instruction::BinaryOp { dst: dv, op, left: Operand::Variable(lv), right: Operand::Variable(rv) };
            let code = inst_code(items, inst).1;
            let d = var_location(dv)->0;
            &&& code is Some
            &&& op == BinaryOp::And ==> m.exec(pkg, code->0, h) == (m.next().write(d, Value::Bool(a && b)), Outcome::Running)
            &&& op == BinaryOp::Or ==> m.exec(pkg, code->0, h) == (m.next().write(d, Value::Bool(a || b)), Outcome::Running)
            &&& op == BinaryOp::Equal ==> m.exec(pkg, code->0, h) == (m.next().write(d, Value::Bool(a == b)), Outcome::Running)
            &&& op == BinaryOp::NotEqual ==> m.exec(pkg, code->0, h) == (m.next().write(d, Value::Bool(a != b)), Outcome::Running)
        }),
{
}

/// An IR prefix operation on a variable that holds an integer or a
/// boolean, compiled to bytecode and run, stores what the source operator
/// means of it: `+a` is `a`, `-a` its negation where that fits 64 bits,
/// `~a` its bitwise complement, and `!b` the negation of a boolean.
pub proof fn law_compiled_prefix_ops(
    items: Seq<ConstView>,
    dv: Variable,
    op: UnaryOp,
    sv: Variable,
    m: VmModel,
    pkg: &Package,
    h: u64,
    v: Value,
)
    requires
        var_location(dv) is Some && m.holds(var_location(dv)->0),
        var_location(sv) is Some && m.holds(var_location(sv)->0) && m.read(var_location(sv)->0) == v,
    ensures
        ({
            let inst = Instruction::UnaryOp { dst: dv, op, src: Operand::Variable(sv) };
            let code = inst_code(items, inst).1;
            let d = var_location(dv)->0;
            &&& code is Some
            &&& (op == UnaryOp::Plus && v is Int) ==> m.exec(pkg, code->0, h) == (m.next().write(d, v), Outcome::Running)
            &&& (op == UnaryOp::Minus && v is Int && v->Int_0 > i64::MIN) ==> m.exec(pkg, code->0, h) == (
                m.next().write(d, Value::Int((-(v->Int_0)) as i64)),
                Outcome::Running,
            )
            &&& (op == UnaryOp::BitNot && v is Int) ==> m.exec(pkg, code->0, h) == (m.next().write(d, Value::Int(!(v->Int_0))), Outcome::Running)
            &&& (op == UnaryOp::Not && v is Bool) ==> m.exec(pkg, code->0, h) == (m.next().write(d, Value::Bool(!(v->Bool_0))), Outcome::Running)
        }),
{
}

/// The bytecode of a unary operation.
pub open spec fn unary_code(op: UnaryOp, dst: Loc, src: Loc) -> ByteCode {
    match op {
        UnaryOp::Plus => ByteCode::Pos { dst, src },
        UnaryOp::Minus => ByteCode::Neg { dst, src },
        UnaryOp::Not => ByteCode::Not { dst, src },
        UnaryOp::BitNot => ByteCode::BitNot { dst, src },
    }
}

/// The constants after an instruction is compiled, and its bytecode
/// (`None` where a location does not fit). Operands are interned in the
/// order the bytecode lists them.
pub open spec fn inst_code(items: Seq<ConstView>, inst: Instruction) -> (Seq<ConstView>, Option<ByteCode>) {
    match inst {
        Instruction::BinaryOp { dst, op, left, right } => {
            let (after, ls) = operand_locs(items, left, right);
            (
                after,
                match (var_location(dst), ls) {
                    (Some(d), Some((l, r))) => Some(binary_code(op, d, l, r)),
                    _ => None,
                },
            )
        },
        Instruction::UnaryOp { dst, op, src } => {
            let (after, s) = operand_loc(items, src);
            (
                after,
                match (var_location(dst), s) {
                    (Some(d), Some(s)) => Some(unary_code(op, d, s)),
                    _ => None,
                },
            )
        },
        Instruction::GetParam { dst } => (
            items,
            match var_location(dst) {
                Some(d) => Some(ByteCode::GetParam { dst: d }),
                None => None,
            },
        ),
        Instruction::Param { src } => {
            let (after, s) = operand_loc(items, src);
            (
                after,
                match s {
                    Some(s) => Some(ByteCode::Param { src: s }),
                    None => None,
                },
            )
        },
        Instruction::Call { dst, func, param_cnt } => {
            let (after, f) = operand_loc(items, func);
            (
                after,
                match (var_location(dst), f) {
                    (Some(d), Some(f)) => Some(
                        ByteCode::Call { dst: d, func: f, param_cnt: param_cnt as u16 },
                    ),
                    _ => None,
                },
            )
        },
        Instruction::NewObject { dst, size } => (
            items,
            match var_location(dst) {
                Some(d) => Some(ByteCode::NewObject { dst: d, size: size as u32 }),
                None => None,
            },
        ),
        Instruction::SetIndex { obj, idx, src } => {
            let (after, ls) = operand_locs(items, idx, src);
            (
                after,
                match (var_location(obj), ls) {
                    (Some(d), Some((i, s))) => Some(ByteCode::SetIndex { dst: d, idx: i, src: s }),
                    _ => None,
                },
            )
        },
        Instruction::SetMember { dst, src, offset } => {
            let (after, s) = operand_loc(items, src);
            (
                after,
                match (var_location(dst), s) {
                    (Some(d), Some(s)) => Some(
                        ByteCode::SetMember { dst: d, offset: offset as u16, src: s },
                    ),
                    _ => None,
                },
            )
        },
        Instruction::Index { dst, src, idx } => {
            let (after, ls) = operand_locs(items, idx, src);
            (
                after,
                match (var_location(dst), ls) {
                    (Some(d), Some((i, s))) => Some(ByteCode::Index { dst: d, idx: i, src: s }),
                    _ => None,
                },
            )
        },
        Instruction::Member { dst, src, offset, .. } => {
            let (after, s) = operand_loc(items, src);
            (
                after,
                match (var_location(dst), s) {
                    (Some(d), Some(s)) => Some(
                        ByteCode::Member { dst: d, offset: offset as u16, src: s },
                    ),
                    _ => None,
                },
            )
        },
        Instruction::Load { from, to } => (
            items,
            match (var_location(from), var_location(to)) {
                (Some(f), Some(t)) => Some(ByteCode::Load { from: f, to: t }),
                _ => None,
            },
        ),
        Instruction::StoreLocal { src, dst } => {
            let (after, s) = operand_loc(items, src);
            (
                after,
                match (s, var_location(dst)) {
                    (Some(s), Some(t)) => Some(ByteCode::Load { from: s, to: t }),
                    _ => None,
                },
            )
        },
    }
}

/// The constants after a list of instructions is compiled, and its
/// bytecode, one instruction each; `None` where a location does not fit.
pub open spec fn insts_code(items: Seq<ConstView>, insts: Seq<Instruction>) -> (
    Seq<ConstView>,
    Option<Seq<ByteCode>>,
)
    decreases insts.len(),
{
    if insts.len() == 0 {
        (items, Some(Seq::empty()))
    } else {
        let (before, codes) = insts_code(items, insts.drop_last());
        match codes {
            None => (before, None),
            Some(codes) => {
                let (after, code) = inst_code(before, insts.last());
                match code {
                    Some(c) => (after, Some(codes.push(c))),
                    None => (after, None),
                }
            },
        }
    }
}

/// Where a prefix of the instructions fails to compile, so do they all.
pub proof fn insts_code_fails_on(items: Seq<ConstView>, insts: Seq<Instruction>, k: int)
    requires
        0 <= k <= insts.len(),
        insts_code(items, insts.take(k)).1 is None,
    ensures
        insts_code(items, insts).1 is None,
    decreases insts.len() - k,
{
    if k < insts.len() {
        assert(insts.take(k + 1).drop_last() =~= insts.take(k));
        insts_code_fails_on(items, insts, k + 1);
    } else {
        assert(insts.take(k) =~= insts);
    }
}

/// The constants after a block's terminator is compiled, and its bytecode:
/// a branch on a variable, a jump where the condition is a boolean constant
/// or the terminator a jump, or a return.
pub open spec fn term_code(items: Seq<ConstView>, term: Terminator) -> (Seq<ConstView>, Result<ByteCode, CompileError>) {
    match term {
        Terminator::Br { cond, then_block, else_block } => match cond {
            Operand::Variable(v) => (
                items,
                match var_location(v) {
                    Some(l) => Ok(
                        ByteCode::Br {
                            cond: l,
                            then_offset: then_block.0 as u32,
                            else_offset: else_block.0 as u32,
                        },
                    ),
                    None => Err(CompileError::LocationOutOfRange),
                },
            ),
            Operand::ConstBool(b) => (
                items,
                Ok(
                    ByteCode::Jump {
                        offset: if b {
                            then_block.0 as u32
                        } else {
                            else_block.0 as u32
                        },
                    },
                ),
            ),
            _ => (items, Err(CompileError::BadCondition)),
        },
        Terminator::Jump { block } => (items, Ok(ByteCode::Jump { offset: block.0 as u32 })),
        Terminator::Ret(None) => (items, Ok(ByteCode::Return { src: None })),
        Terminator::Ret(Some(op)) => {
            let (after, l) = operand_loc(items, op);
            (
                after,
                match l {
                    Some(l) => Ok(ByteCode::Return { src: Some(l) }),
                    None => Err(CompileError::LocationOutOfRange),
                },
            )
        },
    }
}

/// The constants after blocks are laid out one after the other, each its
/// instructions then its terminator, and the bytecode with the index where
/// each block starts; branch targets are still block ids.
pub open spec fn blocks_code(items: Seq<ConstView>, blocks: Seq<BasicBlock>) -> (
    Seq<ConstView>,
    Result<(Seq<ByteCode>, Seq<u32>), CompileError>,
)
    decreases blocks.len(),
{
    if blocks.len() == 0 {
        (items, Ok((Seq::empty(), Seq::empty())))
    } else {
        let (before, r) = blocks_code(items, blocks.drop_last());
        match r {
            Err(e) => (before, Err(e)),
            Ok((codes, starts)) => {
                let (mid, ic) = insts_code(before, blocks.last().insts@);
                match ic {
                    None => (mid, Err(CompileError::LocationOutOfRange)),
                    Some(cs) => {
                        let (after, t) = term_code(mid, blocks.last().term);
                        match t {
                            Err(e) => (after, Err(e)),
                            Ok(tc) => (
                                after,
                                Ok(((codes + cs).push(tc), starts.push(codes.len() as u32))),
                            ),
                        }
                    },
                }
            },
        }
    }
}

/// The position of the last block whose id, as a `u32`, is `t`.
pub open spec fn last_block(blocks: Seq<BasicBlock>, t: u32) -> Option<int>
    decreases blocks.len(),
{
    if blocks.len() == 0 {
        None
    } else if blocks.last().id.0 as u32 == t {
        Some(blocks.len() - 1)
    } else {
        last_block(blocks.drop_last(), t)
    }
}

/// Where the block with id `t` starts.
pub open spec fn block_start(blocks: Seq<BasicBlock>, starts: Seq<u32>, t: u32) -> Option<u32> {
    match last_block(blocks, t) {
        Some(j) => Some(starts[j]),
        None => None,
    }
}

/// A branch or jump with its block ids turned into the indices where the
/// blocks start; other code as it is. `None` where a block is missing.
pub open spec fn patch_code(code: ByteCode, blocks: Seq<BasicBlock>, starts: Seq<u32>) -> Option<ByteCode> {
    match code {
        ByteCode::Br { cond, then_offset, else_offset } => match (
            block_start(blocks, starts, then_offset),
            block_start(blocks, starts, else_offset),
        ) {
            (Some(t), Some(e)) => Some(ByteCode::Br { cond, then_offset: t, else_offset: e }),
            _ => None,
        },
        ByteCode::Jump { offset } => match block_start(blocks, starts, offset) {
            Some(o) => Some(ByteCode::Jump { offset: o }),
            None => None,
        },
        _ => Some(code),
    }
}

/// Every branch and jump of the code goes to a block that exists.
pub open spec fn patches(codes: Seq<ByteCode>, blocks: Seq<BasicBlock>, starts: Seq<u32>) -> bool {
    forall|i: int| 0 <= i < codes.len() ==> (#[trigger] patch_code(codes[i], blocks, starts)) is Some
}

/// The code with every branch and jump patched.
pub open spec fn patched(codes: Seq<ByteCode>, blocks: Seq<BasicBlock>, starts: Seq<u32>) -> Seq<ByteCode> {
    codes.map_values(|c: ByteCode| patch_code(c, blocks, starts).unwrap())
}

/// Interning a constant twice gives the same constants and the same index
/// as interning it once.
pub proof fn law_intern_idempotent(items: Seq<ConstView>, c: ConstView)
    ensures
        interned(interned(items, c), c) == interned(items, c),
        interned(items, c).contains(c),
{
    if !items.contains(c) {
        assert(interned(items, c)[items.len() as int] == c);
    }
}

/// The number of bytecodes a list of blocks takes: one per instruction and
/// one for each terminator.
pub open spec fn code_size(blocks: Seq<BasicBlock>) -> int
    decreases blocks.len(),
{
    if blocks.len() == 0 {
        0
    } else {
        code_size(blocks.drop_last()) + blocks.last().insts@.len() + 1
    }
}

/// Compiled instructions give one bytecode each.
pub proof fn lemma_insts_len(items: Seq<ConstView>, insts: Seq<Instruction>)
    ensures
        insts_code(items, insts).1 matches Some(cs) ==> cs.len() == insts.len(),
    decreases insts.len(),
{
    if insts.len() > 0 {
        lemma_insts_len(items, insts.drop_last());
    }
}

/// Laid-out code has one bytecode per instruction and per terminator, and
/// each block starts where the blocks before it end.
pub proof fn law_layout(items: Seq<ConstView>, blocks: Seq<BasicBlock>)
    ensures
        blocks_code(items, blocks).1 matches Ok((codes, starts)) ==> {
            &&& codes.len() == code_size(blocks)
            &&& starts.len() == blocks.len()
            &&& forall|j: int| 0 <= j < blocks.len() ==> #[trigger] starts[j] == code_size(blocks.take(j)) as u32
        },
    decreases blocks.len(),
{
    if blocks.len() > 0 {
        let prev = blocks.drop_last();
        law_layout(items, prev);
        let (before, r) = blocks_code(items, prev);
        if r is Ok {
            lemma_insts_len(before, blocks.last().insts@);
        }
        assert(blocks.take(blocks.len() - 1) =~= prev);
        assert forall|j: int| 0 <= j < prev.len() implies #[trigger] blocks.take(j) == prev.take(j) by {
            assert(blocks.take(j) =~= prev.take(j));
        }
    }
}

/// The last block with an id is one of the blocks.
pub proof fn lemma_last_block(blocks: Seq<BasicBlock>, t: u32)
    ensures
        last_block(blocks, t) matches Some(j) ==> 0 <= j < blocks.len(),
    decreases blocks.len(),
{
    if blocks.len() > 0 {
        lemma_last_block(blocks.drop_last(), t);
    }
}

/// After patching, every branch and jump goes to where some block starts.
pub proof fn law_targets_are_block_starts(codes: Seq<ByteCode>, blocks: Seq<BasicBlock>, starts: Seq<u32>)
    requires
        patches(codes, blocks, starts),
    ensures
        forall|i: int|
            0 <= i < codes.len() ==> match #[trigger] patched(codes, blocks, starts)[i] {
                ByteCode::Br { then_offset, else_offset, .. } => (exists|j: int|
                    0 <= j < blocks.len() && starts[j] == then_offset) && (exists|j: int|
                    0 <= j < blocks.len() && starts[j] == else_offset),
                ByteCode::Jump { offset } => exists|j: int| 0 <= j < blocks.len() && starts[j] == offset,
                _ => true,
            },
{
    assert forall|i: int| 0 <= i < codes.len() implies match #[trigger] patched(codes, blocks, starts)[i] {
        ByteCode::Br { then_offset, else_offset, .. } => (exists|j: int|
            0 <= j < blocks.len() && starts[j] == then_offset) && (exists|j: int|
            0 <= j < blocks.len() && starts[j] == else_offset),
        ByteCode::Jump { offset } => exists|j: int| 0 <= j < blocks.len() && starts[j] == offset,
        _ => true,
    } by {
        assert(patch_code(codes[i], blocks, starts) is Some);
        match codes[i] {
            ByteCode::Br { then_offset, else_offset, .. } => {
                lemma_last_block(blocks, then_offset);
                lemma_last_block(blocks, else_offset);
            },
            ByteCode::Jump { offset } => {
                lemma_last_block(blocks, offset);
            },
            _ => {},
        }
    }
}

/// Finds where the block with id `t` starts.
fn find_block_start(blocks: &Vec<BasicBlock>, starts: &Vec<u32>, t: u32) -> (r: Option<u32>)
    requires
        blocks@.len() == starts@.len(),
    ensures
        r == block_start(blocks@, starts@, t),
{
    let mut j: usize = blocks.len();
    assert(blocks@.take(j as int) =~= blocks@);
    while j > 0
        invariant
            j <= blocks@.len(),
            blocks@.len() == starts@.len(),
            last_block(blocks@, t) == last_block(blocks@.take(j as int), t),
        decreases j,
    {
        proof {
            assert(blocks@.take(j as int).drop_last() =~= blocks@.take(j - 1));
            assert(blocks@.take(j as int).last() == blocks@[j - 1]);
        }
        if #[verifier::truncate] (blocks[j - 1].id.0 as u32) == t {
            return Some(starts[j - 1]);
        }
        j = j - 1;
    }
    None
}

/// Patches one branch or jump.
fn patch_one(code: ByteCode, blocks: &Vec<BasicBlock>, starts: &Vec<u32>) -> (r: Option<ByteCode>)
    requires
        blocks@.len() == starts@.len(),
    ensures
        r == patch_code(code, blocks@, starts@),
{
    match code {
        ByteCode::Br { cond, then_offset, else_offset } => match (
            find_block_start(blocks, starts, then_offset),
            find_block_start(blocks, starts, else_offset),
        ) {
            (Some(t), Some(e)) => Some(ByteCode::Br { cond, then_offset: t, else_offset: e }),
            _ => None,
        },
        ByteCode::Jump { offset } => match find_block_start(blocks, starts, offset) {
            Some(o) => Some(ByteCode::Jump { offset: o }),
            None => None,
        },
        _ => Some(code),
    }
}

/// Where a prefix of the blocks fails to compile, so do they all, with the
/// same error.
pub proof fn blocks_code_fails_on(items: Seq<ConstView>, blocks: Seq<BasicBlock>, k: int)
    requires
        0 <= k <= blocks.len(),
        blocks_code(items, blocks.take(k)).1 is Err,
    ensures
        blocks_code(items, blocks).1 == blocks_code(items, blocks.take(k)).1,
    decreases blocks.len() - k,
{
    if k < blocks.len() {
        assert(blocks.take(k + 1).drop_last() =~= blocks.take(k));
        blocks_code_fails_on(items, blocks, k + 1);
    } else {
        assert(blocks.take(k) =~= blocks);
    }
}

/// What compiling a function of the IR gives, from the constants before
/// to those after: the blocks laid out in order, each its instructions then
/// its terminator, with branch and jump targets turned from block ids into
/// the indices where those blocks start; the function's name and the
/// numbers of its locals and temporaries.
pub open spec fn ir_fn_compiled(
    items0: Seq<ConstView>,
    f: ir::Function,
    items1: Seq<ConstView>,
    r: Result<Function, CompileError>,
) -> bool {
    let (after, laid) = blocks_code(items0, f.blocks@);
    match laid {
        Err(e) => r == Err::<Function, CompileError>(e),
        Ok((codes, starts)) => {
            &&& items1 == after
            &&& patches(codes, f.blocks@, starts) ==> match r {
                Ok(Function::Custom { name, codes: cs, local_var_cnt, temp_var_cnt }) => {
                    &&& name@ == f.name@
                    &&& cs@ == patched(codes, f.blocks@, starts)
                    &&& local_var_cnt == #[verifier::truncate] (f.locals@.len() as u32)
                    &&& temp_var_cnt == #[verifier::truncate] (f.temps@.len() as u32)
                },
                _ => false,
            }
            &&& !patches(codes, f.blocks@, starts) ==> r == Err::<Function, CompileError>(
                CompileError::UnknownBlock,
            )
        },
    }
}

/// What compiling a typed function gives, with the constants before and
/// after: its lowering to blocks fails with the lowering's error, or its
/// blocks lack a terminator, or the blocks are laid out as bytecode.
pub open spec fn fn_compiled(
    items0: Seq<ConstView>,
    f: type_ast::FunctionDef,
    items1: Seq<ConstView>,
    r: Result<Function, CompileError>,
) -> bool {
    match lower_stmts(get_params(fresh_builder(), f.args@, 0), f.body.statements@, 0) {
        Err(e) => r == Err::<Function, CompileError>(CompileError::Lowering(e)),
        Ok(m) => {
            let m2 = finish_model(m, f.return_type);
            if all_terminated(m2) {
                exists|irf: ir::Function| fn_matches(irf, m2, f) && ir_fn_compiled(items0, irf, items1, r)
            } else {
                r == Err::<Function, CompileError>(CompileError::Lowering(IrError::MissingTerminator))
            }
        },
    }
}

/// The state of a new IR builder.
pub open spec fn fresh_builder() -> IrModel {
    IrModel {
        blocks: seq![ir::BlockModel { id: ir::BlockId(0), insts: Seq::empty(), term: None }],
        temps: Seq::empty(),
        loop_stack: Seq::empty(),
        curr: 0,
    }
}

/// Compiles IR into bytecode, collecting the constants it uses.
pub struct Compiler {
    pub consts: IndexSet<ConstValue>,
}

impl Compiler {
    /// The constants collected so far.
    pub open spec fn items(&self) -> Seq<ConstView> {
        const_items(self.consts)
    }

    /// No constant is collected twice.
    pub open spec fn wf(&self) -> bool {
        self.items().no_duplicates()
    }

    /// A compiler with no constants.
    pub fn new() -> (c: Compiler)
        ensures
            c.wf(),
            c.items() == Seq::<ConstView>::empty(),
    {
        Compiler { consts: const_set_new() }
    }

    /// The location of a constant, which is added to the constants unless an
    /// equal one is there.
    pub fn intern_const(&mut self, value: ConstValue) -> (r: Result<Loc, CompileError>)
        requires
            old(self).wf(),
        ensures
            final(self).wf(),
            final(self).items() == interned(old(self).items(), value@),
            ({
                let i = final(self).items().index_of(value@);
                &&& final(self).items().contains(value@)
                &&& 0 <= i < final(self).items().len()
                &&& final(self).items()[i] == value@
                &&& r == (if i < LOC_LIMIT {
                    Ok::<Loc, CompileError>(const_loc(i))
                } else {
                    Err::<Loc, CompileError>(CompileError::LocationOutOfRange)
                })
            }),
    {
        let ghost v = value@;
        let idx = match const_set_index_of(&self.consts, &value) {
            Some(idx) => {
                proof {
                    assert(self.items().contains(v));
                }
                idx
            },
            None => {
                let idx = const_set_len(&self.consts);
                const_set_insert(&mut self.consts, value);
                proof {
                    assert(self.items()[idx as int] == v);
                }
                idx
            },
        };
        proof {
            assert(self.items().contains(v));
            let i = self.items().index_of(v);
            assert(self.items()[i] == v);
            assert(i == idx);
        }
        if idx < LOC_LIMIT {
            Ok(Loc::from_const(idx))
        } else {
            Err(CompileError::LocationOutOfRange)
        }
    }

    /// The location of a variable.
    pub fn var_to_loc(v: Variable) -> (r: Result<Loc, CompileError>)
        ensures
            r == (match var_location(v) {
                Some(l) => Ok::<Loc, CompileError>(l),
                None => Err(CompileError::LocationOutOfRange),
            }),
    {
        let fits = match v {
            Variable::Local(i) => i < LOC_LIMIT,
            Variable::Temp(i) => i < LOC_LIMIT,
            Variable::Global(i) => i < LOC_LIMIT,
        };
        if fits {
            Ok(Loc::from_variable(v))
        } else {
            Err(CompileError::LocationOutOfRange)
        }
    }

    /// The location of an operand: a variable's own, or that of the constant
    /// once interned.
    pub fn operand_to_loc(&mut self, operand: &Operand) -> (r: Result<Loc, CompileError>)
        requires
            old(self).wf(),
        ensures
            final(self).wf(),
            final(self).items() == operand_loc(old(self).items(), *operand).0,
            r == (match operand_loc(old(self).items(), *operand).1 {
                Some(l) => Ok::<Loc, CompileError>(l),
                None => Err(CompileError::LocationOutOfRange),
            }),
    {
        match operand {
            Operand::Variable(v) => Self::var_to_loc(*v),
            Operand::ConstNil => self.intern_const(ConstValue::Nil),
            Operand::ConstBool(b) => self.intern_const(ConstValue::Bool(*b)),
            Operand::ConstInt(i) => self.intern_const(ConstValue::Int(*i)),
            Operand::ConstFloat(f) => self.intern_const(ConstValue::Float(f.clone())),
            Operand::ConstString(s) => self.intern_const(ConstValue::String(s.clone())),
        }
    }

    /// The bytecode of one instruction.
    pub fn compile_inst(&mut self, inst: &Instruction) -> (r: Result<ByteCode, CompileError>)
        requires
            old(self).wf(),
        ensures
            final(self).wf(),
            r is Ok ==> final(self).items() == inst_code(old(self).items(), *inst).0,
            r == (match inst_code(old(self).items(), *inst).1 {
                Some(c) => Ok::<ByteCode, CompileError>(c),
                None => Err(CompileError::LocationOutOfRange),
            }),
    {
        match inst {
            Instruction::BinaryOp { dst, op, left, right } => {
                let d = Self::var_to_loc(*dst);
                let l = self.operand_to_loc(left);
                let r = self.operand_to_loc(right);
                match (d, l, r) {
                    (Ok(dst), Ok(left), Ok(right)) => Ok(match op {
                        BinaryOp::Add => ByteCode::Add { dst, left, right },
                        BinaryOp::Subtract => ByteCode::Sub { dst, left, right },
                        BinaryOp::Multiply => ByteCode::Mul { dst, left, right },
                        BinaryOp::Divide => ByteCode::Div { dst, left, right },
                        BinaryOp::Modulo => ByteCode::Mod { dst, left, right },
                        BinaryOp::BitAnd => ByteCode::BitAnd { dst, left, right },
                        BinaryOp::BitOr => ByteCode::BitOr { dst, left, right },
                        BinaryOp::BitXor => ByteCode::BitXor { dst, left, right },
                        BinaryOp::ShiftLeft => ByteCode::Shl { dst, left, right },
                        BinaryOp::ShiftRight => ByteCode::Shr { dst, left, right },
                        BinaryOp::Equal => ByteCode::Eq { dst, left, right },
                        BinaryOp::NotEqual => ByteCode::Ne { dst, left, right },
                        BinaryOp::Less => ByteCode::Lt { dst, left, right },
                        BinaryOp::LessEqual => ByteCode::Le { dst, left, right },
                        BinaryOp::Greater => ByteCode::Gt { dst, left, right },
                        BinaryOp::GreaterEqual => ByteCode::Ge { dst, left, right },
                        BinaryOp::And => ByteCode::And { dst, left, right },
                        BinaryOp::Or => ByteCode::Or { dst, left, right },
                    }),
                    _ => Err(CompileError::LocationOutOfRange),
                }
            },
            Instruction::UnaryOp { dst, op, src } => {
                let d = Self::var_to_loc(*dst);
                let s = self.operand_to_loc(src);
                match (d, s) {
                    (Ok(dst), Ok(src)) => Ok(match op {
                        UnaryOp::Plus => ByteCode::Pos { dst, src },
                        UnaryOp::Minus => ByteCode::Neg { dst, src },
                        UnaryOp::Not => ByteCode::Not { dst, src },
                        UnaryOp::BitNot => ByteCode::BitNot { dst, src },
                    }),
                    _ => Err(CompileError::LocationOutOfRange),
                }
            },
            Instruction::GetParam { dst } => match Self::var_to_loc(*dst) {
                Ok(dst) => Ok(ByteCode::GetParam { dst }),
                Err(e) => Err(e),
            },
            Instruction::Param { src } => match self.operand_to_loc(src) {
                Ok(src) => Ok(ByteCode::Param { src }),
                Err(e) => Err(e),
            },
            Instruction::Call { dst, func, param_cnt } => {
                let d = Self::var_to_loc(*dst);
                let f = self.operand_to_loc(func);
                match (d, f) {
                    (Ok(dst), Ok(func)) => Ok(ByteCode::Call { dst, func, param_cnt: *param_cnt as u16 }),
                    _ => Err(CompileError::LocationOutOfRange),
                }
            },
            Instruction::NewObject { dst, size } => match Self::var_to_loc(*dst) {
                Ok(dst) => Ok(ByteCode::NewObject { dst, size: *size as u32 }),
                Err(e) => Err(e),
            },
            Instruction::SetIndex { obj, idx, src } => {
                let d = Self::var_to_loc(*obj);
                let i = self.operand_to_loc(idx);
                let s = self.operand_to_loc(src);
                match (d, i, s) {
                    (Ok(dst), Ok(idx), Ok(src)) => Ok(ByteCode::SetIndex { dst, idx, src }),
                    _ => Err(CompileError::LocationOutOfRange),
                }
            },
            Instruction::SetMember { dst, src, offset } => {
                let d = Self::var_to_loc(*dst);
                let s = self.operand_to_loc(src);
                match (d, s) {
                    (Ok(dst), Ok(src)) => Ok(ByteCode::SetMember { dst, offset: *offset as u16, src }),
                    _ => Err(CompileError::LocationOutOfRange),
                }
            },
            Instruction::Index { dst, src, idx } => {
                let d = Self::var_to_loc(*dst);
                let i = self.operand_to_loc(idx);
                let s = self.operand_to_loc(src);
                match (d, i, s) {
                    (Ok(dst), Ok(idx), Ok(src)) => Ok(ByteCode::Index { dst, idx, src }),
                    _ => Err(CompileError::LocationOutOfRange),
                }
            },
            Instruction::Member { dst, src, offset, .. } => {
                let d = Self::var_to_loc(*dst);
                let s = self.operand_to_loc(src);
                match (d, s) {
                    (Ok(dst), Ok(src)) => Ok(ByteCode::Member { dst, offset: *offset as u16, src }),
                    _ => Err(CompileError::LocationOutOfRange),
                }
            },
            Instruction::Load { from, to } => {
                let f = Self::var_to_loc(*from);
                let t = Self::var_to_loc(*to);
                match (f, t) {
                    (Ok(from), Ok(to)) => Ok(ByteCode::Load { from, to }),
                    _ => Err(CompileError::LocationOutOfRange),
                }
            },
            Instruction::StoreLocal { src, dst } => {
                let s = self.operand_to_loc(src);
                let t = Self::var_to_loc(*dst);
                match (s, t) {
                    (Ok(from), Ok(to)) => Ok(ByteCode::Load { from, to }),
                    _ => Err(CompileError::LocationOutOfRange),
                }
            },
        }
    }

    /// Appends the bytecode of a list of instructions, one instruction each,
    /// interning the constants they use.
    pub fn compile_irs(&mut self, irs: &[Instruction], codes: &mut Vec<ByteCode>) -> (r: Result<(), CompileError>)
        requires
            old(self).wf(),
        ensures
            final(self).wf(),
            insts_code(old(self).items(), irs@).1 is Some ==> r is Ok && final(self).items()
                == insts_code(old(self).items(), irs@).0 && final(codes)@ == old(codes)@
                + insts_code(old(self).items(), irs@).1.unwrap(),
            insts_code(old(self).items(), irs@).1 is None ==> r == Err::<(), CompileError>(
                CompileError::LocationOutOfRange,
            ),
    {
        let ghost items0 = self.items();
        let ghost codes0 = codes@;
        let mut i: usize = 0;
        assert(irs@.take(0) =~= Seq::<Instruction>::empty());
        while i < irs.len()
            invariant
                self.wf(),
                old(self).items() == items0,
                old(codes)@ == codes0,
                i <= irs@.len(),
                insts_code(items0, irs@.take(i as int)).1 is Some,
                self.items() == insts_code(items0, irs@.take(i as int)).0,
                codes@ == codes0 + insts_code(items0, irs@.take(i as int)).1.unwrap(),
            decreases irs@.len() - i,
        {
            proof {
                assert(irs@.take(i + 1).drop_last() =~= irs@.take(i as int));
                assert(irs@.take(i + 1).last() == irs@[i as int]);
            }
            match self.compile_inst(&irs[i]) {
                Ok(c) => {
                    codes.push(c);
                    proof {
                        assert(codes@ =~= codes0 + insts_code(items0, irs@.take(i + 1)).1.unwrap());
                    }
                },
                Err(e) => {
                    proof {
                        insts_code_fails_on(items0, irs@, i as int + 1);
                        assert(e == CompileError::LocationOutOfRange);
                        assert(insts_code(items0, irs@).1 is None);
                    }
                    return Err(e);
                },
            }
            i = i + 1;
        }
        assert(irs@.take(irs@.len() as int) =~= irs@);
        Ok(())
    }


    /// The bytecode of a block's terminator.
    pub fn compile_term(&mut self, term: &Terminator) -> (r: Result<ByteCode, CompileError>)
        requires
            old(self).wf(),
        ensures
            final(self).wf(),
            r is Ok ==> final(self).items() == term_code(old(self).items(), *term).0,
            r == term_code(old(self).items(), *term).1,
    {
        match term {
            Terminator::Br { cond, then_block, else_block } => match cond {
                Operand::Variable(v) => match Self::var_to_loc(*v) {
                    Ok(l) => Ok(
                        ByteCode::Br {
                            cond: l,
                            then_offset: #[verifier::truncate] (then_block.0 as u32),
                            else_offset: #[verifier::truncate] (else_block.0 as u32),
                        },
                    ),
                    Err(e) => Err(e),
                },
                Operand::ConstBool(b) => Ok(
                    ByteCode::Jump {
                        offset: if *b {
                            #[verifier::truncate] (then_block.0 as u32)
                        } else {
                            #[verifier::truncate] (else_block.0 as u32)
                        },
                    },
                ),
                _ => Err(CompileError::BadCondition),
            },
            Terminator::Jump { block } => Ok(
                ByteCode::Jump { offset: #[verifier::truncate] (block.0 as u32) },
            ),
            Terminator::Ret(None) => Ok(ByteCode::Return { src: None }),
            Terminator::Ret(Some(op)) => match self.operand_to_loc(op) {
                Ok(l) => Ok(ByteCode::Return { src: Some(l) }),
                Err(e) => Err(e),
            },
        }
    }

    /// Compiles a function of the IR: its blocks laid out in order, each its
    /// instructions then its terminator, with branch and jump targets
    /// turned from block ids into the indices where those blocks start.
    pub fn compile_ir_fn(&mut self, f: &ir::Function) -> (r: Result<Function, CompileError>)
        requires
            old(self).wf(),
        ensures
            final(self).wf(),
            r matches Ok(func) ==> func is Custom,
            ir_fn_compiled(old(self).items(), *f, final(self).items(), r),
    {
        let ghost items0 = self.items();
        let mut codes: Vec<ByteCode> = Vec::new();
        let mut starts: Vec<u32> = Vec::new();
        let mut j: usize = 0;
        assert(f.blocks@.take(0) =~= Seq::<BasicBlock>::empty());
        while j < f.blocks.len()
            invariant
                self.wf(),
                old(self).items() == items0,
                j <= f.blocks@.len(),
                starts@.len() == j,
                blocks_code(items0, f.blocks@.take(j as int)) == (
                    self.items(),
                    Ok::<(Seq<ByteCode>, Seq<u32>), CompileError>((codes@, starts@)),
                ),
            decreases f.blocks@.len() - j,
        {
            let ghost prev = f.blocks@.take(j as int);
            proof {
                assert(f.blocks@.take(j + 1).drop_last() =~= prev);
                assert(f.blocks@.take(j + 1).last() == f.blocks@[j as int]);
            }
            let block = &f.blocks[j];
            let start = #[verifier::truncate] (codes.len() as u32);
            let ghost codes_before = codes@;
            match self.compile_irs(block.insts.as_slice(), &mut codes) {
                Ok(()) => {},
                Err(e) => {
                    proof {
                        blocks_code_fails_on(items0, f.blocks@, j as int + 1);
                    }
                    return Err(e);
                },
            }
            match self.compile_term(&block.term) {
                Ok(c) => codes.push(c),
                Err(e) => {
                    proof {
                        blocks_code_fails_on(items0, f.blocks@, j as int + 1);
                    }
                    return Err(e);
                },
            }
            starts.push(start);
            proof {
                let cs = insts_code(blocks_code(items0, prev).0, block.insts@).1.unwrap();
                assert(codes@ =~= (codes_before + cs).push(
                    term_code(insts_code(blocks_code(items0, prev).0, block.insts@).0, block.term).1.unwrap(),
                ));
            }
            j = j + 1;
        }
        proof {
            assert(f.blocks@.take(f.blocks@.len() as int) =~= f.blocks@);
        }
        let mut out: Vec<ByteCode> = Vec::new();
        let mut i: usize = 0;
        while i < codes.len()
            invariant
                self.wf(),
                old(self).items() == items0,
                blocks_code(items0, f.blocks@) == (
                    self.items(),
                    Ok::<(Seq<ByteCode>, Seq<u32>), CompileError>((codes@, starts@)),
                ),
                i <= codes@.len(),
                starts@.len() == f.blocks@.len(),
                forall|k: int| 0 <= k < i ==> (#[trigger] patch_code(codes@[k], f.blocks@, starts@)) is Some,
                out@ =~= patched(codes@.take(i as int), f.blocks@, starts@),
            decreases codes@.len() - i,
        {
            match patch_one(codes[i], &f.blocks, &starts) {
                Some(c) => out.push(c),
                None => {
                    proof {
                        assert(patch_code(codes@[i as int], f.blocks@, starts@) is None);
                    }
                    return Err(CompileError::UnknownBlock);
                },
            }
            proof {
                assert(codes@.take(i + 1) =~= codes@.take(i as int).push(codes@[i as int]));
            }
            i = i + 1;
        }
        proof {
            assert(codes@.take(codes@.len() as int) =~= codes@);
        }
        Ok(
            Function::Custom {
                name: f.name.clone(),
                codes: out,
                local_var_cnt: #[verifier::truncate] (f.locals.len() as u32),
                temp_var_cnt: #[verifier::truncate] (f.temps.len() as u32),
            },
        )
    }


    /// Compiles a typed function: lowers it to IR with a new builder, then
    /// compiles the IR.
    pub fn compile_fn(&mut self, f: &type_ast::FunctionDef) -> (r: Result<Function, CompileError>)
        requires
            old(self).wf(),
        ensures
            final(self).wf(),
            r matches Ok(func) ==> func is Custom,
            r matches Ok(Function::Custom { name, .. }) ==> name@ == f.name@,
            fn_compiled(old(self).items(), *f, final(self).items(), r),
    {
        let builder = IrBuilder::new();
        assert(builder@ =~= fresh_builder());
        match builder.visit_fn(f) {
            Ok(irf) => self.compile_ir_fn(&irf),
            Err(e) => Err(CompileError::Lowering(e)),
        }
    }


    /// The constants collected, in order.
    pub fn into_constants(self) -> (v: Vec<ConstValue>)
        ensures
            v@.map_values(|c: ConstValue| c@) == self.items(),
    {
        const_set_into_vec(self.consts)
    }

}

/// Why a program cannot be compiled.
#[derive(Debug)]
pub enum ProgramError {
    /// The program is not well typed.
    Semantic(SemanticError),
    /// A function cannot be turned into bytecode.
    Compile(CompileError),
}

/// Compiles a typed function into the package under construction: the
/// function goes at the end of the list and its global slot is set to it.
fn add_function(
    compiler: &mut Compiler,
    f: &type_ast::FunctionDef,
    functions: &mut Vec<Function>,
    global: &mut Vec<Value>,
) -> (r: Result<usize, ProgramError>)
    requires
        old(compiler).wf(),
        forall|i: int| 0 <= i < old(functions)@.len() ==> (#[trigger] old(functions)@[i]) is Custom,
    ensures
        final(compiler).wf(),
        forall|i: int| 0 <= i < final(functions)@.len() ==> (#[trigger] final(functions)@[i]) is Custom,
        final(global)@.len() == old(global)@.len(),
        r matches Ok(idx) ==> idx == old(functions)@.len() && final(functions)@.len() == idx + 1,
        r matches Ok(idx) ==> final(functions)@.drop_last() == old(functions)@,
        r matches Ok(idx) ==> (final(functions)@[idx as int] matches Function::Custom { name, .. } && name@
            == f.name@),
        r matches Ok(idx) ==> f.idx < old(global)@.len() && final(global)@ == old(global)@.update(
            f.idx as int,
            Value::Fn(#[verifier::truncate] (idx as u32)),
        ),
        r is Err ==> final(functions)@.len() == old(functions)@.len(),
        exists|fr: Result<Function, CompileError>|
            fn_compiled(old(compiler).items(), *f, final(compiler).items(), fr) && match fr {
                Ok(func) => if f.idx < old(global)@.len() {
                    r == Ok::<usize, ProgramError>(old(functions)@.len() as usize) && final(functions)@ == old(
                        functions,
                    )@.push(func)
                } else {
                    r matches Err(ProgramError::Semantic(SemanticError::MissFunc { name })) && name@ == f.name@
                },
                Err(e) => r == Err::<usize, ProgramError>(ProgramError::Compile(e)),
            },
{
    let func = match compiler.compile_fn(f) {
        Ok(func) => func,
        Err(e) => return Err(ProgramError::Compile(e)),
    };
    let idx = functions.len();
    if f.idx >= global.len() {
        return Err(ProgramError::Semantic(SemanticError::MissFunc { name: f.name.clone() }));
    }
    global.set(f.idx, Value::Fn(#[verifier::truncate] (idx as u32)));
    functions.push(func);
    proof {
        assert(functions@.drop_last() =~= old(functions)@);
    }
    Ok(idx)
}

/// Compiles a program: analyses its types, compiles each function into
/// bytecode with the constants they share, sets each function's global
/// slot to it, and starts at `main`.
pub fn compile(program: &ast::Program) -> (r: Result<Package, ProgramError>)
    ensures
        r matches Ok(p) ==> p.entry_function < p.functions@.len() && p.functions@[p.entry_function as int] is Custom,
        r matches Ok(p) ==> forall|i: int| 0 <= i < p.functions@.len() ==> (#[trigger] p.functions@[i]) is Custom,
        r matches Ok(p) ==> (p.functions@[p.entry_function as int] matches Function::Custom { name, .. } && name@
            == "main"@),
        r matches Ok(p) ==> p.functions@.map_values(|f: Function| function_name(f)) == program_fn_names(
            program.statements@,
        ),
        !structs_declarable(Seq::empty(), program.statements@) ==> r matches Err(ProgramError::Semantic(_)),
        (structs_declarable(Seq::empty(), program.statements@) && forall|k: int|
            0 <= k < program.statements@.len() ==> simple_struct(
                #[trigger] program.statements@[k],
                struct_names(program.statements@),
            )) ==> r == Err::<Package, ProgramError>(ProgramError::Semantic(SemanticError::MissingEntryPoint)),
{
    let ghost stmts = program.statements@;
    let ghost struct_only = structs_declarable(Seq::empty(), stmts) && forall|k: int|
        0 <= k < stmts.len() ==> simple_struct(#[trigger] stmts[k], struct_names(stmts));
    let mut semantic = Semantic::new();
    assert(semantic.struct_table.names() =~= Seq::<Seq<char>>::empty());
    assert(Seq::<Seq<char>>::empty() + struct_names(stmts) =~= struct_names(stmts));
    match semantic.init_global_symbol() {
        Ok(()) => {},
        Err(e) => {
            return Err(ProgramError::Semantic(e));
        },
    }
    proof {
        if struct_only {
            lemma_struct_program_fn_names(stmts, struct_names(stmts));
            semantic.symbol_table.lemma_next_slot_bound();
            assert(fn_names_of(stmts) =~= Seq::<Seq<char>>::empty());
        }
    }
    let typed = match semantic.analysis_type(program) {
        Ok(t) => t,
        Err(e) => return Err(ProgramError::Semantic(e)),
    };
    assert(structs_declarable(Seq::empty(), stmts));
    let mut compiler = Compiler::new();
    let mut functions: Vec<Function> = Vec::new();
    let count = semantic.symbol_table.global_count();
    let mut global: Vec<Value> = Vec::new();
    let mut k: usize = 0;
    while k < count
        invariant
            k <= count,
            global@.len() == k,
        decreases count - k,
    {
        global.push(Value::Nil);
        k = k + 1;
    }
    proof {
        lemma_program_fn_names(program.statements@, typed.defs@);
    }
    let mut entry: Option<usize> = None;
    let mut i: usize = 0;
    assert(functions@.map_values(|f: Function| function_name(f)) =~= defs_fn_names(typed.defs@.take(0)));
    while i < typed.defs.len()
        invariant
            compiler.wf(),
            i <= typed.defs@.len(),
            functions@.map_values(|f: Function| function_name(f)) == defs_fn_names(typed.defs@.take(i as int)),
            forall|j: int| 0 <= j < functions@.len() ==> (#[trigger] functions@[j]) is Custom,
            entry matches Some(e) ==> e < functions@.len(),
            entry matches Some(e) ==> (functions@[e as int] matches Function::Custom { name, .. } && name@
                == "main"@),
            struct_only ==> defs_fn_names(typed.defs@).len() == 0,
            stmts == program.statements@,
            structs_declarable(Seq::empty(), stmts),
            struct_only == (structs_declarable(Seq::empty(), stmts) && forall|k: int|
                0 <= k < stmts.len() ==> simple_struct(#[trigger] stmts[k], struct_names(stmts))),
        decreases typed.defs@.len() - i,
    {
        let ghost names0 = functions@.map_values(|f: Function| function_name(f));
        proof {
            assert(typed.defs@.take(i + 1).drop_last() =~= typed.defs@.take(i as int));
            assert(typed.defs@.take(i + 1).last() == typed.defs@[i as int]);
        }
        match &typed.defs[i] {
            type_ast::Definition::StructDef(_) => {
                assert(functions@.map_values(|f: Function| function_name(f)) =~= names0 + Seq::<Seq<char>>::empty());
            },
            type_ast::Definition::FunctionDef(f) => {
                proof {
                    if struct_only {
                        lemma_defs_fn_names_append(typed.defs@.take(i + 1), typed.defs@.skip(i + 1));
                        assert(typed.defs@.take(i + 1) + typed.defs@.skip(i + 1) =~= typed.defs@);
                    }
                }
                let ghost before = functions@;
                let idx = add_function(&mut compiler, f, &mut functions, &mut global)?;
                assert(functions@ =~= before.push(functions@.last()));
                assert(functions@.map_values(|f: Function| function_name(f)) =~= names0 + seq![f.name@]);
                if str_eq(f.name.as_str(), "main") {
                    entry = Some(idx);
                }
            },
            type_ast::Definition::ImplDef(impl_def) => {
                proof {
                    if struct_only && impl_def.functions@.len() > 0 {
                        lemma_defs_fn_names_append(typed.defs@.take(i + 1), typed.defs@.skip(i + 1));
                        assert(typed.defs@.take(i + 1) + typed.defs@.skip(i + 1) =~= typed.defs@);
                    }
                }
                let mut j: usize = 0;
                assert(names0 =~= names0 + impl_def.functions@.take(0).map_values(
                    |a: type_ast::AssociatedFunction| assoc_name(a),
                ));
                while j < impl_def.functions.len()
                    invariant
                        compiler.wf(),
                        j <= impl_def.functions@.len(),
                        functions@.map_values(|f: Function| function_name(f)) == names0 + impl_def.functions@.take(
                            j as int,
                        ).map_values(|a: type_ast::AssociatedFunction| assoc_name(a)),
                        forall|k: int| 0 <= k < functions@.len() ==> (#[trigger] functions@[k]) is Custom,
                        entry matches Some(e) ==> e < functions@.len(),
                        entry matches Some(e) ==> (functions@[e as int] matches Function::Custom { name, .. }
                            && name@ == "main"@),
                        impl_def.functions@.len() > 0 ==> !struct_only,
                        stmts == program.statements@,
                        structs_declarable(Seq::empty(), stmts),
                        struct_only == (structs_declarable(Seq::empty(), stmts) && forall|k: int|
                            0 <= k < stmts.len() ==> simple_struct(#[trigger] stmts[k], struct_names(stmts))),
                    decreases impl_def.functions@.len() - j,
                {
                    let f = match &impl_def.functions[j] {
                        type_ast::AssociatedFunction::Function(f) => f,
                        type_ast::AssociatedFunction::Method(f) => f,
                    };
                    let ghost before = functions@;
                    add_function(&mut compiler, f, &mut functions, &mut global)?;
                    proof {
                        assert(functions@ =~= before.push(functions@.last()));
                        assert(function_name(functions@.last()) == assoc_name(impl_def.functions@[j as int]));
                        let prev = impl_def.functions@.take(j as int).map_values(
                            |a: type_ast::AssociatedFunction| assoc_name(a),
                        );
                        assert(impl_def.functions@.take(j + 1).map_values(|a: type_ast::AssociatedFunction| assoc_name(a))
                            =~= prev.push(assoc_name(impl_def.functions@[j as int])));
                        assert(before.map_values(|f: Function| function_name(f)) == names0 + prev);
                        assert(functions@.map_values(|f: Function| function_name(f)) =~= before.map_values(
                            |f: Function| function_name(f),
                        ).push(function_name(functions@.last())));
                        assert((names0 + prev).push(assoc_name(impl_def.functions@[j as int])) =~= names0 + prev.push(
                            assoc_name(impl_def.functions@[j as int]),
                        ));
                        assert(impl_def.functions@.take(j + 1) =~= impl_def.functions@.take(j as int).push(
                            impl_def.functions@[j as int],
                        ));
                        assert(functions@.map_values(|f: Function| function_name(f)) =~= names0
                            + impl_def.functions@.take(j + 1).map_values(
                            |a: type_ast::AssociatedFunction| assoc_name(a),
                        ));
                    }
                    j = j + 1;
                }
                assert(impl_def.functions@.take(j as int) =~= impl_def.functions@);
            },
        }
        i = i + 1;
    }
    assert(typed.defs@.take(i as int) =~= typed.defs@);
    let entry_function = match entry {
        Some(e) => e,
        None => return Err(ProgramError::Semantic(SemanticError::MissingEntryPoint)),
    };
    let constants = compiler.into_constants();
    Ok(Package { constants, global, structs: semantic.struct_table, functions, entry_function })
}

} // verus!
