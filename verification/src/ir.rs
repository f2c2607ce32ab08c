use crate::ast::{BinaryOp, UnaryOp};
use crate::scope::Location;
use crate::token::Literal;
use crate::ty::TypeId;
use crate::type_ast::{Arg, Block, BlockStmt, Expr, FieldAssign, FunctionDef, IfStmt, LetStmt, WhileStmt};
use vstd::prelude::*;

verus! {

/// A variable of the intermediate representation.
#[derive(Clone, Copy, PartialEq, Eq, Structural, Debug, Hash)]
pub enum Variable {
    Local(usize),
    Global(usize),
    Temp(usize),
}

/// A basic block by its index.
#[derive(Clone, Copy, PartialEq, Eq, Structural, Debug, Hash)]
pub struct BlockId(pub usize);

/// An operand: a variable or a constant. A float constant keeps the text of
/// its literal.
pub enum Operand {
    Variable(Variable),
    ConstNil,
    ConstBool(bool),
    ConstInt(i64),
    ConstFloat(String),
    ConstString(String),
}

impl Operand {
    /// The variable of an operand, if it is one.
    pub fn as_var(&self) -> (r: Option<Variable>)
        ensures
            r == (match self {
                Operand::Variable(v) => Some(*v),
                _ => None,
            }),
    {
        match self {
            Operand::Variable(var) => Some(*var),
            _ => None,
        }
    }
}

/// An instruction of a basic block.
pub enum Instruction {
    BinaryOp { dst: Variable, op: BinaryOp, left: Operand, right: Operand },
    UnaryOp { dst: Variable, op: UnaryOp, src: Operand },
    GetParam { dst: Variable },
    Param { src: Operand },
    Call { dst: Variable, func: Operand, param_cnt: usize },
    NewObject { dst: Variable, size: usize },
    SetIndex { obj: Variable, idx: Operand, src: Operand },
    SetMember { dst: Variable, src: Operand, offset: usize },
    Index { dst: Variable, src: Operand, idx: Operand },
    Member { dst: Variable, src: Operand, member: String, offset: usize },
    Load { from: Variable, to: Variable },
    StoreLocal { src: Operand, dst: Variable },
}

/// How a basic block ends.
pub enum Terminator {
    Br { cond: Operand, then_block: BlockId, else_block: BlockId },
    Jump { block: BlockId },
    Ret(Option<Operand>),
}

/// A basic block.
pub struct BasicBlock {
    pub id: BlockId,
    pub insts: Vec<Instruction>,
    pub term: Terminator,
}

/// A basic block under construction, which may not have its terminator yet.
pub struct IrBasicBlock {
    pub id: BlockId,
    pub insts: Vec<Instruction>,
    pub term: Option<Terminator>,
}

/// A function of the intermediate representation.
pub struct Function {
    pub name: String,
    pub args: Vec<TypeId>,
    pub blocks: Vec<BasicBlock>,
    pub temps: Vec<TypeId>,
    pub locals: Vec<TypeId>,
    pub ret: Option<TypeId>,
}

/// The variable of a location.
pub open spec fn loc_var(l: Location) -> Variable {
    match l {
        Location::Local(i) => Variable::Local(i),
        Location::Global(i) => Variable::Global(i),
    }
}

impl Variable {
    /// The variable of a location.
    pub fn from_location(l: Location) -> (v: Variable)
        ensures
            v == loc_var(l),
    {
        match l {
            Location::Local(i) => Variable::Local(i),
            Location::Global(i) => Variable::Global(i),
        }
    }
}

/// The operand of a literal.
pub open spec fn literal_operand(l: Literal) -> Operand {
    match l {
        Literal::Nil => Operand::ConstNil,
        Literal::Bool(b) => Operand::ConstBool(b),
        Literal::Int(i) => Operand::ConstInt(i),
        Literal::Float(f) => Operand::ConstFloat(f),
        Literal::String(s) => Operand::ConstString(s),
    }
}

/// A basic block under construction, as a mathematical value.
pub struct BlockModel {
    pub id: BlockId,
    pub insts: Seq<Instruction>,
    pub term: Option<Terminator>,
}

/// The state of an IR builder as a mathematical value.
#[verifier::ext_equal]
pub struct IrModel {
    pub blocks: Seq<BlockModel>,
    pub temps: Seq<TypeId>,
    pub loop_stack: Seq<(BlockId, BlockId)>,
    pub curr: int,
}

impl IrModel {
    /// Every block's id is its position, and the current block exists.
    pub open spec fn wf(self) -> bool {
        &&& 0 <= self.curr < self.blocks.len()
        &&& forall|j: int| 0 <= j < self.blocks.len() ==> (#[trigger] self.blocks[j]).id == BlockId(j as usize)
    }

    /// The state with an instruction added to the current block.
    pub open spec fn emit(self, inst: Instruction) -> IrModel {
        let b = self.blocks[self.curr];
        IrModel {
            blocks: self.blocks.update(self.curr, BlockModel { insts: b.insts.push(inst), ..b }),
            ..self
        }
    }

    /// The state with the current block's terminator set.
    pub open spec fn set_term(self, term: Terminator) -> IrModel {
        let b = self.blocks[self.curr];
        IrModel { blocks: self.blocks.update(self.curr, BlockModel { term: Some(term), ..b }), ..self }
    }

    /// Whether the current block has its terminator.
    pub open spec fn has_term(self) -> bool {
        self.blocks[self.curr].term is Some
    }

    /// The state with a new temporary of a type.
    pub open spec fn with_temp(self, ty: TypeId) -> IrModel {
        IrModel { temps: self.temps.push(ty), ..self }
    }

    /// The state with a new empty block at the end.
    pub open spec fn with_block(self) -> IrModel {
        IrModel {
            blocks: self.blocks.push(
                BlockModel { id: BlockId(self.blocks.len() as usize), insts: Seq::empty(), term: None },
            ),
            ..self
        }
    }

    /// The state with another current block.
    pub open spec fn goto(self, b: BlockId) -> IrModel {
        IrModel { curr: b.0 as int, ..self }
    }
}

/// Lowers an expression: the instructions it needs go to the end of the
/// current block, each compound expression gets a new temporary for its
/// value (before those of its parts, but after those of a call's
/// arguments), and the operand that holds its value is returned.
pub open spec fn lower_expr(m: IrModel, e: Expr) -> (IrModel, Operand)
    decreases e, 0int,
{
    match e {
        Expr::Literal { value, .. } => (m, literal_operand(value)),
        Expr::Unary { op, expr, ty } => {
            let dst = Variable::Temp(m.temps.len() as usize);
            let (m1, src) = lower_expr(m.with_temp(ty), *expr);
            (m1.emit(Instruction::UnaryOp { dst, op, src }), Operand::Variable(dst))
        },
        Expr::Binary { left, op, right, ty } => {
            let dst = Variable::Temp(m.temps.len() as usize);
            let (m1, l) = lower_expr(m.with_temp(ty), *left);
            let (m2, r) = lower_expr(m1, *right);
            (m2.emit(Instruction::BinaryOp { dst, op, left: l, right: r }), Operand::Variable(dst))
        },
        Expr::Call { func, args, ty } => {
            let m1 = lower_params(m, args@, args@.len() as int);
            let dst = Variable::Temp(m1.temps.len() as usize);
            let (m2, f) = lower_expr(m1.with_temp(ty), *func);
            (
                m2.emit(Instruction::Call { dst, func: f, param_cnt: args@.len() as usize }),
                Operand::Variable(dst),
            )
        },
        Expr::Index { target, index, ty } => {
            let dst = Variable::Temp(m.temps.len() as usize);
            let (m1, src) = lower_expr(m.with_temp(ty), *target);
            let (m2, idx) = lower_expr(m1, *index);
            (m2.emit(Instruction::Index { dst, src, idx }), Operand::Variable(dst))
        },
        Expr::Member { target, member, offset, member_ty } => {
            let dst = Variable::Temp(m.temps.len() as usize);
            let (m1, src) = lower_expr(m.with_temp(member_ty), *target);
            (m1.emit(Instruction::Member { dst, src, member, offset }), Operand::Variable(dst))
        },
        Expr::Struct { struct_ty, fields } => {
            let dst = Variable::Temp(m.temps.len() as usize);
            let m1 = m.with_temp(struct_ty).emit(
                Instruction::NewObject { dst, size: fields@.len() as usize },
            );
            (lower_fields(m1, dst, fields@, fields@.len() as int), Operand::Variable(dst))
        },
        Expr::Path { location, .. } => (m, Operand::Variable(loc_var(location))),
        Expr::Method { location, method_ty, .. } => {
            let dst = Variable::Temp(m.temps.len() as usize);
            (
                m.with_temp(method_ty).emit(Instruction::Load { to: dst, from: loc_var(location) }),
                Operand::Variable(dst),
            )
        },
    }
}

/// Lowers the first `n` arguments of a call, each followed by a `Param`
/// of its value.
pub open spec fn lower_params(m: IrModel, args: Seq<Expr>, n: int) -> IrModel
    decreases args, n,
{
    if n <= 0 || n > args.len() {
        m
    } else {
        let m1 = lower_params(m, args, n - 1);
        let (m2, o) = lower_expr(m1, args[n - 1]);
        m2.emit(Instruction::Param { src: o })
    }
}

/// Lowers the first `n` field initialisers of a struct expression, each
/// followed by a `SetMember` of its value into `dst`.
pub open spec fn lower_fields(m: IrModel, dst: Variable, fields: Seq<FieldAssign>, n: int) -> IrModel
    decreases fields, n,
{
    if n <= 0 || n > fields.len() {
        m
    } else {
        let m1 = lower_fields(m, dst, fields, n - 1);
        let (m2, o) = lower_expr(m1, fields[n - 1].expr);
        m2.emit(Instruction::SetMember { dst, src: o, offset: fields[n - 1].offset })
    }
}

/// A builder state grew from another: the same blocks, current block and
/// loops; the temporaries and the current block's instructions only had
/// more added at their ends; no other block and no terminator changed.
pub open spec fn grew_from(m2: IrModel, m: IrModel) -> bool {
    &&& m2.blocks.len() == m.blocks.len()
    &&& m2.curr == m.curr
    &&& m2.loop_stack == m.loop_stack
    &&& m.temps.len() <= m2.temps.len()
    &&& m2.temps.take(m.temps.len() as int) == m.temps
    &&& forall|j: int| 0 <= j < m.blocks.len() && j != m.curr ==> #[trigger] m2.blocks[j] == m.blocks[j]
    &&& m2.blocks[m.curr].id == m.blocks[m.curr].id
    &&& m2.blocks[m.curr].term == m.blocks[m.curr].term
    &&& m.blocks[m.curr].insts.len() <= m2.blocks[m.curr].insts.len()
    &&& m2.blocks[m.curr].insts.take(m.blocks[m.curr].insts.len() as int) == m.blocks[m.curr].insts
}

/// Growing is transitive.
proof fn lemma_grew_trans(a: IrModel, b: IrModel, c: IrModel)
    requires
        grew_from(b, a),
        grew_from(c, b),
        0 <= a.curr < a.blocks.len(),
    ensures
        grew_from(c, a),
{
    assert(c.temps.take(a.temps.len() as int) =~= b.temps.take(a.temps.len() as int));
    let k = a.curr;
    assert(c.blocks[k].insts.take(a.blocks[k].insts.len() as int) =~= b.blocks[k].insts.take(
        a.blocks[k].insts.len() as int,
    ));
}

/// Adding a temporary or an instruction grows the state.
proof fn lemma_grew_steps(m: IrModel, ty: TypeId, inst: Instruction)
    requires
        m.wf(),
    ensures
        grew_from(m, m),
        grew_from(m.with_temp(ty), m),
        grew_from(m.emit(inst), m),
        m.with_temp(ty).wf(),
        m.emit(inst).wf(),
{
    assert(m.temps.take(m.temps.len() as int) =~= m.temps);
    assert(m.with_temp(ty).temps.take(m.temps.len() as int) =~= m.temps);
    let k = m.curr;
    assert(m.blocks[k].insts.take(m.blocks[k].insts.len() as int) =~= m.blocks[k].insts);
    assert(m.emit(inst).blocks[k].insts.take(m.blocks[k].insts.len() as int) =~= m.blocks[k].insts);
}

/// Lowering an expression only adds: temporaries at the end, and
/// instructions at the end of the current block; no block is created and
/// no other block or terminator changes.
pub proof fn law_lower_expr_appends(m: IrModel, e: Expr)
    requires
        m.wf(),
    ensures
        lower_expr(m, e).0.wf(),
        grew_from(lower_expr(m, e).0, m),
    decreases e, 0int,
{
    lemma_grew_steps(m, TypeId(0), Instruction::GetParam { dst: Variable::Local(0) });
    match e {
        Expr::Literal { .. } => {},
        Expr::Path { .. } => {},
        Expr::Unary { op, expr, ty } => {
            let dst = Variable::Temp(m.temps.len() as usize);
            let m0 = m.with_temp(ty);
            lemma_grew_steps(m, ty, Instruction::GetParam { dst });
            law_lower_expr_appends(m0, *expr);
            let (m1, src) = lower_expr(m0, *expr);
            lemma_grew_steps(m1, ty, Instruction::UnaryOp { dst, op, src });
            lemma_grew_trans(m, m0, m1);
            lemma_grew_trans(m, m1, m1.emit(Instruction::UnaryOp { dst, op, src }));
        },
        Expr::Binary { left, op, right, ty } => {
            let dst = Variable::Temp(m.temps.len() as usize);
            let m0 = m.with_temp(ty);
            lemma_grew_steps(m, ty, Instruction::GetParam { dst });
            law_lower_expr_appends(m0, *left);
            let (m1, l) = lower_expr(m0, *left);
            law_lower_expr_appends(m1, *right);
            let (m2, r) = lower_expr(m1, *right);
            let inst = Instruction::BinaryOp { dst, op, left: l, right: r };
            lemma_grew_steps(m2, ty, inst);
            lemma_grew_trans(m, m0, m1);
            lemma_grew_trans(m, m1, m2);
            lemma_grew_trans(m, m2, m2.emit(inst));
        },
        Expr::Call { func, args, ty } => {
            law_lower_params_appends(m, args@, args@.len() as int);
            let m1 = lower_params(m, args@, args@.len() as int);
            let dst = Variable::Temp(m1.temps.len() as usize);
            let m10 = m1.with_temp(ty);
            lemma_grew_steps(m1, ty, Instruction::GetParam { dst });
            law_lower_expr_appends(m10, *func);
            let (m2, f) = lower_expr(m10, *func);
            let inst = Instruction::Call { dst, func: f, param_cnt: args@.len() as usize };
            lemma_grew_steps(m2, ty, inst);
            lemma_grew_trans(m, m1, m10);
            lemma_grew_trans(m, m10, m2);
            lemma_grew_trans(m, m2, m2.emit(inst));
        },
        Expr::Index { target, index, ty } => {
            let dst = Variable::Temp(m.temps.len() as usize);
            let m0 = m.with_temp(ty);
            lemma_grew_steps(m, ty, Instruction::GetParam { dst });
            law_lower_expr_appends(m0, *target);
            let (m1, src) = lower_expr(m0, *target);
            law_lower_expr_appends(m1, *index);
            let (m2, idx) = lower_expr(m1, *index);
            let inst = Instruction::Index { dst, src, idx };
            lemma_grew_steps(m2, ty, inst);
            lemma_grew_trans(m, m0, m1);
            lemma_grew_trans(m, m1, m2);
            lemma_grew_trans(m, m2, m2.emit(inst));
        },
        Expr::Member { target, member, offset, member_ty } => {
            let dst = Variable::Temp(m.temps.len() as usize);
            let m0 = m.with_temp(member_ty);
            lemma_grew_steps(m, member_ty, Instruction::GetParam { dst });
            law_lower_expr_appends(m0, *target);
            let (m1, src) = lower_expr(m0, *target);
            let inst = Instruction::Member { dst, src, member, offset };
            lemma_grew_steps(m1, member_ty, inst);
            lemma_grew_trans(m, m0, m1);
            lemma_grew_trans(m, m1, m1.emit(inst));
        },
        Expr::Struct { struct_ty, fields } => {
            let dst = Variable::Temp(m.temps.len() as usize);
            let m0 = m.with_temp(struct_ty);
            let inst = Instruction::NewObject { dst, size: fields@.len() as usize };
            lemma_grew_steps(m, struct_ty, inst);
            lemma_grew_steps(m0, struct_ty, inst);
            let m1 = m0.emit(inst);
            lemma_grew_trans(m, m0, m1);
            law_lower_fields_appends(m1, dst, fields@, fields@.len() as int);
            lemma_grew_trans(m, m1, lower_fields(m1, dst, fields@, fields@.len() as int));
        },
        Expr::Method { location, method_ty, .. } => {
            let dst = Variable::Temp(m.temps.len() as usize);
            let m0 = m.with_temp(method_ty);
            let inst = Instruction::Load { to: dst, from: loc_var(location) };
            lemma_grew_steps(m, method_ty, inst);
            lemma_grew_steps(m0, method_ty, inst);
            lemma_grew_trans(m, m0, m0.emit(inst));
        },
    }
}

/// Lowering the arguments of a call only adds, as lowering an expression
/// does.
pub proof fn law_lower_params_appends(m: IrModel, args: Seq<Expr>, n: int)
    requires
        m.wf(),
    ensures
        lower_params(m, args, n).wf(),
        grew_from(lower_params(m, args, n), m),
    decreases args, n,
{
    lemma_grew_steps(m, TypeId(0), Instruction::GetParam { dst: Variable::Local(0) });
    if 0 < n <= args.len() {
        law_lower_params_appends(m, args, n - 1);
        let m1 = lower_params(m, args, n - 1);
        law_lower_expr_appends(m1, args[n - 1]);
        let (m2, o) = lower_expr(m1, args[n - 1]);
        let inst = Instruction::Param { src: o };
        lemma_grew_steps(m2, TypeId(0), inst);
        lemma_grew_trans(m, m1, m2);
        lemma_grew_trans(m, m2, m2.emit(inst));
    }
}

/// Lowering the fields of a struct expression only adds, as lowering an
/// expression does.
pub proof fn law_lower_fields_appends(m: IrModel, dst: Variable, fields: Seq<FieldAssign>, n: int)
    requires
        m.wf(),
    ensures
        lower_fields(m, dst, fields, n).wf(),
        grew_from(lower_fields(m, dst, fields, n), m),
    decreases fields, n,
{
    lemma_grew_steps(m, TypeId(0), Instruction::GetParam { dst: Variable::Local(0) });
    if 0 < n <= fields.len() {
        law_lower_fields_appends(m, dst, fields, n - 1);
        let m1 = lower_fields(m, dst, fields, n - 1);
        law_lower_expr_appends(m1, fields[n - 1].expr);
        let (m2, o) = lower_expr(m1, fields[n - 1].expr);
        let inst = Instruction::SetMember { dst, src: o, offset: fields[n - 1].offset };
        lemma_grew_steps(m2, TypeId(0), inst);
        lemma_grew_trans(m, m1, m2);
        lemma_grew_trans(m, m2, m2.emit(inst));
    }
}

/// Why a function cannot be lowered.
#[derive(Clone, Copy, PartialEq, Eq, Structural, Debug)]
pub enum IrError {
    /// The target of an assignment is not a variable, an element or a
    /// field, or the object of an element or field assignment is not held
    /// in a variable.
    AssignTarget,
    /// `break` outside a loop.
    BreakOutsideLoop,
    /// `continue` outside a loop.
    ContinueOutsideLoop,
    /// A block was left without a terminator (a function with a return
    /// type that can run off its end).
    MissingTerminator,
}

/// The state with a terminator set unless the current block has one.
pub open spec fn close_with(m: IrModel, t: Terminator) -> IrModel {
    if m.has_term() {
        m
    } else {
        m.set_term(t)
    }
}

/// Lowers a `return`: its value, then the terminator that returns it.
pub open spec fn lower_return(m: IrModel, expr: Option<Expr>) -> IrModel {
    match expr {
        Some(e) => {
            let (m1, o) = lower_expr(m, e);
            m1.set_term(Terminator::Ret(Some(o)))
        },
        None => m.set_term(Terminator::Ret(None)),
    }
}

/// Lowers the statements of a block from the `i`-th on; a `return` ends
/// the block, and the statements after it are not lowered.
pub open spec fn lower_stmts(m: IrModel, stmts: Seq<BlockStmt>, i: int) -> Result<IrModel, IrError>
    decreases stmts, stmts.len() - i,
{
    if i < 0 || i >= stmts.len() {
        Ok(m)
    } else {
        match stmts[i] {
            BlockStmt::Return(r) => Ok(lower_return(m, r.expr)),
            _ => match lower_stmt(m, stmts[i]) {
                Err(e) => Err(e),
                Ok(m1) => lower_stmts(m1, stmts, i + 1),
            },
        }
    }
}

/// Lowers one statement other than `return`.
pub open spec fn lower_stmt(m: IrModel, s: BlockStmt) -> Result<IrModel, IrError>
    decreases s, 0int,
{
    match s {
        BlockStmt::Let(l) => {
            let (m1, o) = lower_expr(m, l.expr);
            Ok(m1.emit(Instruction::StoreLocal { src: o, dst: loc_var(l.location) }))
        },
        BlockStmt::Assign(a) => match a.target {
            Expr::Index { target, index, .. } => {
                let (m1, t) = lower_expr(m, *target);
                match t {
                    Operand::Variable(obj) => {
                        let (m2, idx) = lower_expr(m1, *index);
                        let (m3, src) = lower_expr(m2, a.expr);
                        Ok(m3.emit(Instruction::SetIndex { obj, idx, src }))
                    },
                    _ => Err(IrError::AssignTarget),
                }
            },
            Expr::Member { target, offset, .. } => {
                let (m1, t) = lower_expr(m, *target);
                match t {
                    Operand::Variable(dst) => {
                        let (m2, src) = lower_expr(m1, a.expr);
                        Ok(m2.emit(Instruction::SetMember { dst, src, offset }))
                    },
                    _ => Err(IrError::AssignTarget),
                }
            },
            Expr::Path { location, .. } => {
                let (m1, src) = lower_expr(m, a.expr);
                Ok(m1.emit(Instruction::StoreLocal { src, dst: loc_var(location) }))
            },
            _ => Err(IrError::AssignTarget),
        },
        BlockStmt::Return(r) => Ok(lower_return(m, r.expr)),
        BlockStmt::Expr(e) => Ok(lower_expr(m, e).0),
        BlockStmt::Block(b) => lower_stmts(m, b.statements@, 0),
        BlockStmt::If(ifs) => {
            let n = m.blocks.len();
            let then_block = BlockId(n as usize);
            let else_block = BlockId((n + 1) as usize);
            let merge = BlockId((n + 2) as usize);
            let (m1, cond) = lower_expr(m.with_block().with_block().with_block(), *ifs.condition);
            let m2 = m1.set_term(Terminator::Br { cond, then_block, else_block }).goto(then_block);
            match lower_stmts(m2, ifs.then_branch.statements@, 0) {
                Err(e) => Err(e),
                Ok(m3) => {
                    let m4 = close_with(m3, Terminator::Jump { block: merge }).goto(else_block);
                    let m5 = match ifs.else_branch {
                        Some(b) => lower_stmts(m4, b.statements@, 0),
                        None => Ok(m4),
                    };
                    match m5 {
                        Err(e) => Err(e),
                        Ok(m5) => Ok(close_with(m5, Terminator::Jump { block: merge }).goto(merge)),
                    }
                },
            }
        },
        BlockStmt::While(w) => {
            let n = m.blocks.len();
            let cond_block = BlockId(n as usize);
            let body = BlockId((n + 1) as usize);
            let exit = BlockId((n + 2) as usize);
            let m1 = m.with_block().with_block().with_block().set_term(
                Terminator::Jump { block: cond_block },
            ).goto(cond_block);
            let (m2, cond) = lower_expr(m1, *w.condition);
            let m3 = m2.set_term(Terminator::Br { cond, then_block: body, else_block: exit }).goto(
                body,
            );
            let m4 = IrModel { loop_stack: m3.loop_stack.push((cond_block, exit)), ..m3 };
            match lower_stmts(m4, w.block.statements@, 0) {
                Err(e) => Err(e),
                Ok(m5) => {
                    let m6 = IrModel { loop_stack: m5.loop_stack.drop_last(), ..m5 };
                    Ok(close_with(m6, Terminator::Jump { block: cond_block }).goto(exit))
                },
            }
        },
        BlockStmt::Break => if m.loop_stack.len() == 0 {
            Err(IrError::BreakOutsideLoop)
        } else {
            Ok(m.set_term(Terminator::Jump { block: m.loop_stack.last().1 }))
        },
        BlockStmt::Continue => if m.loop_stack.len() == 0 {
            Err(IrError::ContinueOutsideLoop)
        } else {
            Ok(m.set_term(Terminator::Jump { block: m.loop_stack.last().0 }))
        },
    }
}

/// The most blocks lowering statements from the `i`-th on can add: three
/// for each `if` and `while`, with those of the statements inside.
pub open spec fn stmts_blocks(stmts: Seq<BlockStmt>, i: int) -> nat
    decreases stmts, stmts.len() - i,
{
    if i < 0 || i >= stmts.len() {
        0
    } else {
        stmt_blocks(stmts[i]) + stmts_blocks(stmts, i + 1)
    }
}

/// The most blocks lowering a statement can add.
pub open spec fn stmt_blocks(s: BlockStmt) -> nat
    decreases s, 0int,
{
    match s {
        BlockStmt::Block(b) => stmts_blocks(b.statements@, 0),
        BlockStmt::If(ifs) => 3 + stmts_blocks(ifs.then_branch.statements@, 0) + match ifs.else_branch {
            Some(b) => stmts_blocks(b.statements@, 0),
            None => 0,
        },
        BlockStmt::While(w) => 3 + stmts_blocks(w.block.statements@, 0),
        _ => 0,
    }
}

/// A builder state was carried on from another: blocks were only added;
/// the blocks other than the current one are as they were; the current
/// one kept its instructions, which more may follow; the builder is in the
/// old current block or in a new one; the loops are as they were.
pub open spec fn carried_on(m2: IrModel, m: IrModel) -> bool {
    &&& m2.wf()
    &&& m.blocks.len() <= m2.blocks.len()
    &&& forall|j: int| 0 <= j < m.blocks.len() && j != m.curr ==> #[trigger] m2.blocks[j] == m.blocks[j]
    &&& m.blocks[m.curr].insts.len() <= m2.blocks[m.curr].insts.len()
    &&& m2.blocks[m.curr].insts.take(m.blocks[m.curr].insts.len() as int) == m.blocks[m.curr].insts
    &&& (m2.curr == m.curr || m2.curr >= m.blocks.len())
    &&& m2.loop_stack == m.loop_stack
}

/// Carrying on is transitive.
proof fn lemma_carried_trans(a: IrModel, b: IrModel, c: IrModel)
    requires
        a.wf(),
        carried_on(b, a),
        carried_on(c, b),
    ensures
        carried_on(c, a),
{
    let k = a.curr;
    if b.curr == k {
        assert(c.blocks[k].insts.take(a.blocks[k].insts.len() as int) =~= b.blocks[k].insts.take(
            a.blocks[k].insts.len() as int,
        ));
    } else {
        assert(c.blocks[k] == b.blocks[k]);
    }
    assert forall|j: int| 0 <= j < a.blocks.len() && j != a.curr implies #[trigger] c.blocks[j] == a.blocks[j] by {
        assert(j != b.curr);
        assert(c.blocks[j] == b.blocks[j]);
    }
}

/// The single steps of lowering carry the state on: growing, setting the
/// current block's terminator, closing it, adding blocks, and moving to a
/// block that is new.
proof fn lemma_carried_steps(m: IrModel, t: Terminator)
    requires
        m.wf(),
    ensures
        carried_on(m, m),
        carried_on(m.set_term(t), m),
        m.set_term(t).blocks.len() == m.blocks.len(),
        carried_on(close_with(m, t), m),
        close_with(m, t).blocks.len() == m.blocks.len(),
        carried_on(m.with_block(), m),
        m.with_block().curr == m.curr,
{
    let k = m.curr;
    assert(m.blocks[k].insts.take(m.blocks[k].insts.len() as int) =~= m.blocks[k].insts);
    assert(m.set_term(t).blocks[k].insts == m.blocks[k].insts);
    assert(m.with_block().blocks[k] == m.blocks[k]);
}

/// Growing carries the state on.
proof fn lemma_grew_carried(m2: IrModel, m: IrModel)
    requires
        m.wf(),
        m2.wf(),
        grew_from(m2, m),
    ensures
        carried_on(m2, m),
        m2.blocks.len() == m.blocks.len(),
{
}

/// Moving to a block that is new carries the state on.
proof fn lemma_goto_new(x: IrModel, m: IrModel, b: BlockId)
    requires
        m.wf(),
        carried_on(x, m),
        m.blocks.len() <= b.0 < x.blocks.len(),
    ensures
        carried_on(x.goto(b), m),
{
}

/// Lowering statements carries the builder state on: it adds blocks,
/// appends to the current block, leaves the other blocks as they were and
/// the loops as they were.
pub proof fn law_lower_stmts_carries_on(m: IrModel, stmts: Seq<BlockStmt>, i: int)
    requires
        m.wf(),
        m.blocks.len() + stmts_blocks(stmts, i) <= usize::MAX,
    ensures
        lower_stmts(m, stmts, i) matches Ok(m2) ==> carried_on(m2, m) && m2.blocks.len() <= m.blocks.len()
            + stmts_blocks(stmts, i),
    decreases stmts, stmts.len() - i, 2int,
{
    lemma_carried_steps(m, Terminator::Ret(None));
    if 0 <= i < stmts.len() {
        match stmts[i] {
            BlockStmt::Return(r) => {
                lemma_lower_return_carries_on(m, r.expr);
            },
            _ => {
                law_lower_stmt_carries_on(m, stmts[i]);
                if let Ok(m1) = lower_stmt(m, stmts[i]) {
                    law_lower_stmts_carries_on(m1, stmts, i + 1);
                    if let Ok(m2) = lower_stmts(m1, stmts, i + 1) {
                        lemma_carried_trans(m, m1, m2);
                    }
                }
            },
        }
    }
}

/// A `return` carries the state on.
proof fn lemma_lower_return_carries_on(m: IrModel, expr: Option<Expr>)
    requires
        m.wf(),
    ensures
        carried_on(lower_return(m, expr), m),
        lower_return(m, expr).blocks.len() == m.blocks.len(),
{
    match expr {
        Some(e) => {
            law_lower_expr_appends(m, e);
            let m1 = lower_expr(m, e).0;
            lemma_grew_carried(m1, m);
            lemma_carried_steps(m1, Terminator::Ret(None));
            lemma_carried_trans(m, m1, m1.set_term(Terminator::Ret(Some(lower_expr(m, e).1))));
        },
        None => {
            lemma_carried_steps(m, Terminator::Ret(None));
        },
    }
}

/// Lowering a statement carries the builder state on.
pub proof fn law_lower_stmt_carries_on(m: IrModel, s: BlockStmt)
    requires
        m.wf(),
        m.blocks.len() + stmt_blocks(s) <= usize::MAX,
    ensures
        lower_stmt(m, s) matches Ok(m2) ==> carried_on(m2, m) && m2.blocks.len() <= m.blocks.len() + stmt_blocks(s),
    decreases s, 0int, 1int,
{
    lemma_carried_steps(m, Terminator::Ret(None));
    match s {
        BlockStmt::Let(l) => {
            law_lower_expr_appends(m, l.expr);
            let m1 = lower_expr(m, l.expr).0;
            let inst = Instruction::StoreLocal { src: lower_expr(m, l.expr).1, dst: loc_var(l.location) };
            lemma_grew_steps(m1, TypeId(0), inst);
            lemma_grew_trans(m, m1, m1.emit(inst));
            lemma_grew_carried(m1.emit(inst), m);
        },
        BlockStmt::Assign(a) => {
            match a.target {
                Expr::Index { target, index, .. } => {
                    law_lower_expr_appends(m, *target);
                    let (m1, t) = lower_expr(m, *target);
                    law_lower_expr_appends(m1, *index);
                    let (m2, idx) = lower_expr(m1, *index);
                    law_lower_expr_appends(m2, a.expr);
                    let (m3, src) = lower_expr(m2, a.expr);
                    if let Operand::Variable(obj) = t {
                        let inst = Instruction::SetIndex { obj, idx, src };
                        lemma_grew_steps(m3, TypeId(0), inst);
                        lemma_grew_trans(m, m1, m2);
                        lemma_grew_trans(m, m2, m3);
                        lemma_grew_trans(m, m3, m3.emit(inst));
                        lemma_grew_carried(m3.emit(inst), m);
                    }
                },
                Expr::Member { target, offset, .. } => {
                    law_lower_expr_appends(m, *target);
                    let (m1, t) = lower_expr(m, *target);
                    law_lower_expr_appends(m1, a.expr);
                    let (m2, src) = lower_expr(m1, a.expr);
                    if let Operand::Variable(dst) = t {
                        let inst = Instruction::SetMember { dst, src, offset };
                        lemma_grew_steps(m2, TypeId(0), inst);
                        lemma_grew_trans(m, m1, m2);
                        lemma_grew_trans(m, m2, m2.emit(inst));
                        lemma_grew_carried(m2.emit(inst), m);
                    }
                },
                Expr::Path { location, .. } => {
                    law_lower_expr_appends(m, a.expr);
                    let (m1, src) = lower_expr(m, a.expr);
                    let inst = Instruction::StoreLocal { src, dst: loc_var(location) };
                    lemma_grew_steps(m1, TypeId(0), inst);
                    lemma_grew_trans(m, m1, m1.emit(inst));
                    lemma_grew_carried(m1.emit(inst), m);
                },
                _ => {},
            }
        },
        BlockStmt::Return(r) => {
            lemma_lower_return_carries_on(m, r.expr);
        },
        BlockStmt::Expr(e) => {
            law_lower_expr_appends(m, e);
            lemma_grew_carried(lower_expr(m, e).0, m);
        },
        BlockStmt::Block(b) => {
            law_lower_stmts_carries_on(m, b.statements@, 0);
        },
        BlockStmt::If(ifs) => {
            lemma_if_carries_on(m, ifs);
        },
        BlockStmt::While(w) => {
            let n = m.blocks.len();
            let cond_block = BlockId(n as usize);
            let body = BlockId((n + 1) as usize);
            let exit = BlockId((n + 2) as usize);
            let w0 = m.with_block().with_block().with_block();
            lemma_with_blocks(m);
            let c0 = w0.set_term(Terminator::Jump { block: cond_block });
            lemma_carried_steps(w0, Terminator::Jump { block: cond_block });
            lemma_carried_trans(m, w0, c0);
            lemma_goto_new(c0, m, cond_block);
            let m1 = c0.goto(cond_block);
            law_lower_expr_appends(m1, *w.condition);
            let (m2, cond) = lower_expr(m1, *w.condition);
            lemma_grew_carried(m2, m1);
            lemma_carried_trans(m, m1, m2);
            let b2 = m2.set_term(Terminator::Br { cond, then_block: body, else_block: exit });
            lemma_carried_steps(m2, Terminator::Br { cond, then_block: body, else_block: exit });
            lemma_carried_trans(m, m2, b2);
            lemma_goto_new(b2, m, body);
            let m3 = b2.goto(body);
            let m4 = IrModel { loop_stack: m3.loop_stack.push((cond_block, exit)), ..m3 };
            law_lower_stmts_carries_on(m4, w.block.statements@, 0);
            if let Ok(m5) = lower_stmts(m4, w.block.statements@, 0) {
                let m6 = IrModel { loop_stack: m5.loop_stack.drop_last(), ..m5 };
                assert(m6.loop_stack =~= m3.loop_stack);
                assert(carried_on(m6, m3));
                lemma_carried_trans(m, m3, m6);
                lemma_carried_steps(m6, Terminator::Jump { block: cond_block });
                let c6 = close_with(m6, Terminator::Jump { block: cond_block });
                lemma_carried_trans(m, m6, c6);
                lemma_goto_new(c6, m, exit);
            }
        },
        BlockStmt::Break => {},
        BlockStmt::Continue => {},
    }
}

/// Three new blocks carry the state on, and the builder stays where it is.
proof fn lemma_with_blocks(m: IrModel)
    requires
        m.wf(),
    ensures
        carried_on(m.with_block().with_block().with_block(), m),
        m.with_block().with_block().with_block().curr == m.curr,
        m.with_block().with_block().with_block().blocks.len() == m.blocks.len() + 3,
        m.with_block().with_block().with_block().blocks[m.blocks.len() as int].insts.len() == 0,
        m.with_block().with_block().with_block().blocks[m.blocks.len() + 1int].insts.len() == 0,
{
    lemma_carried_steps(m, Terminator::Ret(None));
    let m1 = m.with_block();
    lemma_carried_steps(m1, Terminator::Ret(None));
    let m2 = m1.with_block();
    lemma_carried_steps(m2, Terminator::Ret(None));
    lemma_carried_trans(m, m1, m2);
    lemma_carried_trans(m, m2, m2.with_block());
}

/// An `if` carries the state on.
proof fn lemma_if_carries_on(m: IrModel, ifs: IfStmt)
    requires
        m.wf(),
        m.blocks.len() + stmt_blocks(BlockStmt::If(ifs)) <= usize::MAX,
    ensures
        lower_stmt(m, BlockStmt::If(ifs)) matches Ok(m2) ==> carried_on(m2, m) && m2.blocks.len() <= m.blocks.len()
            + stmt_blocks(BlockStmt::If(ifs)),
    decreases BlockStmt::If(ifs), 0int, 0int,
{
    let n = m.blocks.len();
    let then_block = BlockId(n as usize);
    let else_block = BlockId((n + 1) as usize);
    let merge = BlockId((n + 2) as usize);
    let m0 = m.with_block().with_block().with_block();
    lemma_with_blocks(m);
    law_lower_expr_appends(m0, *ifs.condition);
    let (m1, cond) = lower_expr(m0, *ifs.condition);
    lemma_grew_carried(m1, m0);
    lemma_carried_trans(m, m0, m1);
    let br = Terminator::Br { cond, then_block, else_block };
    lemma_carried_steps(m1, br);
    lemma_carried_trans(m, m1, m1.set_term(br));
    lemma_goto_new(m1.set_term(br), m, then_block);
    let m2 = m1.set_term(br).goto(then_block);
    law_lower_stmts_carries_on(m2, ifs.then_branch.statements@, 0);
    if let Ok(m3) = lower_stmts(m2, ifs.then_branch.statements@, 0) {
        lemma_carried_trans(m, m2, m3);
        let j = Terminator::Jump { block: merge };
        lemma_carried_steps(m3, j);
        lemma_carried_trans(m, m3, close_with(m3, j));
        lemma_goto_new(close_with(m3, j), m, else_block);
        let m4 = close_with(m3, j).goto(else_block);
        let m5r = match ifs.else_branch {
            Some(b) => lower_stmts(m4, b.statements@, 0),
            None => Ok(m4),
        };
        match ifs.else_branch {
            Some(b) => {
                law_lower_stmts_carries_on(m4, b.statements@, 0);
            },
            None => {
                lemma_carried_steps(m4, j);
            },
        }
        if let Ok(m5) = m5r {
            lemma_carried_trans(m, m4, m5);
            lemma_carried_steps(m5, j);
            lemma_carried_trans(m, m5, close_with(m5, j));
            lemma_goto_new(close_with(m5, j), m, merge);
        }
    }
}

/// Some instruction of a block stores into a variable.
pub open spec fn stores_to(insts: Seq<Instruction>, v: Variable) -> bool {
    exists|k: int| 0 <= k < insts.len() && (#[trigger] insts[k] matches Instruction::StoreLocal { dst, .. } && dst == v)
}

/// Lowering an infix operation on two literals adds one instruction to the
/// current block, which applies the same operator to the two literals as
/// its left and right operands, in that order, and stores into a new
/// temporary; the value is that temporary.
pub proof fn law_lower_binary_of_literals(m: IrModel, e: Expr)
    requires
        m.wf(),
        match e {
            Expr::Binary { left, right, .. } => match (*left, *right) {
                (Expr::Literal { .. }, Expr::Literal { .. }) => true,
                _ => false,
            },
            _ => false,
        },
    ensures
        ({
            let (m2, o) = lower_expr(m, e);
            let dst = Variable::Temp(m.temps.len() as usize);
            match e {
                Expr::Binary { left, op, right, .. } => match (*left, *right) {
                    (Expr::Literal { value: a, .. }, Expr::Literal { value: b, .. }) => {
                        &&& o == Operand::Variable(dst)
                        &&& m2.blocks[m.curr].insts == m.blocks[m.curr].insts.push(
                            Instruction::BinaryOp { dst, op, left: literal_operand(a), right: literal_operand(b) },
                        )
                        &&& m2.temps.len() == m.temps.len() + 1
                    },
                    _ => false,
                },
                _ => false,
            }
        }),
{
    reveal_with_fuel(lower_expr, 2);
}

/// A statement that stays in its block: a `let` or an expression.
pub open spec fn straight(s: BlockStmt) -> bool {
    s is Let || s is Expr
}

/// Lowering a straight statement only adds to the current block.
proof fn lemma_straight_grows(m: IrModel, s: BlockStmt)
    requires
        m.wf(),
        straight(s),
    ensures
        lower_stmt(m, s) is Ok,
        grew_from(lower_stmt(m, s)->Ok_0, m),
        lower_stmt(m, s)->Ok_0.wf(),
{
    match s {
        BlockStmt::Let(l) => {
            law_lower_expr_appends(m, l.expr);
            let (m1, o) = lower_expr(m, l.expr);
            let store = Instruction::StoreLocal { src: o, dst: loc_var(l.location) };
            lemma_grew_steps(m1, TypeId(0), store);
            lemma_grew_trans(m, m1, m1.emit(store));
        },
        BlockStmt::Expr(e) => {
            law_lower_expr_appends(m, e);
        },
        _ => {},
    }
}

/// Lowering statements from the `i`-th on, where those before the `k`-th
/// are `let`s and expressions and the `k`-th is a `let`, stores into that
/// `let`'s variable in the block lowering starts in.
proof fn lemma_let_stored(m: IrModel, stmts: Seq<BlockStmt>, i: int, k: int, l: LetStmt)
    requires
        m.wf(),
        m.blocks.len() + stmts_blocks(stmts, i) <= usize::MAX,
        0 <= i <= k < stmts.len(),
        forall|j: int| i <= j < k ==> straight(#[trigger] stmts[j]),
        stmts[k] == BlockStmt::Let(l),
        lower_stmts(m, stmts, i) is Ok,
    ensures
        stores_to(lower_stmts(m, stmts, i)->Ok_0.blocks[m.curr].insts, loc_var(l.location)),
    decreases k - i,
{
    if i < k {
        assert(straight(stmts[i]));
        lemma_straight_grows(m, stmts[i]);
        let a = lower_stmt(m, stmts[i])->Ok_0;
        assert(lower_stmts(m, stmts, i) == lower_stmts(a, stmts, i + 1));
        lemma_let_stored(a, stmts, i + 1, k, l);
    } else {
        law_lower_expr_appends(m, l.expr);
        let (m1, o) = lower_expr(m, l.expr);
        let store = Instruction::StoreLocal { src: o, dst: loc_var(l.location) };
        let a = m1.emit(store);
        lemma_grew_steps(m1, TypeId(0), store);
        lemma_grew_trans(m, m1, a);
        lemma_grew_carried(a, m);
        assert(lower_stmt(m, stmts[i]) == Ok::<IrModel, IrError>(a));
        law_lower_stmts_carries_on(a, stmts, i + 1);
        let r = lower_stmts(a, stmts, i + 1)->Ok_0;
        let n = a.blocks[m.curr].insts.len() - 1;
        assert(a.blocks[m.curr].insts[n] == store);
        assert(r.blocks[m.curr].insts[n] == a.blocks[m.curr].insts.take(a.blocks[m.curr].insts.len() as int)[n]);
        assert(r.blocks[m.curr].insts[n] == store);
    }
}

/// Lowering statements carries the state on and adds at most the blocks
/// they may need.
proof fn lemma_lowered_carried(m: IrModel, stmts: Seq<BlockStmt>)
    requires
        m.wf(),
        m.blocks.len() + stmts_blocks(stmts, 0) <= usize::MAX,
        lower_stmts(m, stmts, 0) is Ok,
    ensures
        carried_on(lower_stmts(m, stmts, 0)->Ok_0, m),
        lower_stmts(m, stmts, 0)->Ok_0.blocks.len() <= m.blocks.len() + stmts_blocks(stmts, 0),
{
    law_lower_stmts_carries_on(m, stmts, 0);
}

/// Lowering `if c { .. } else { .. }` lowers both branches, each into its
/// own block: of branches that begin with `let`s and expressions, the
/// condition's branch sends the true case to a block that stores into the
/// variable of every such `let` of the then branch (the `kt`-th statement
/// here) and the false case to another block that stores into that of
/// every such `let` of the else branch (the `ke`-th).
pub proof fn law_if_branches_lowered(m: IrModel, ifs: IfStmt, kt: int, lt: LetStmt, ke: int, le: LetStmt)
    requires
        m.wf(),
        m.blocks.len() + stmt_blocks(BlockStmt::If(ifs)) <= usize::MAX,
        0 <= kt < ifs.then_branch.statements@.len(),
        forall|j: int| 0 <= j < kt ==> straight(#[trigger] ifs.then_branch.statements@[j]),
        ifs.then_branch.statements@[kt] == BlockStmt::Let(lt),
        ifs.else_branch is Some,
        0 <= ke < ifs.else_branch->0.statements@.len(),
        forall|j: int| 0 <= j < ke ==> straight(#[trigger] ifs.else_branch->0.statements@[j]),
        ifs.else_branch->0.statements@[ke] == BlockStmt::Let(le),
        lower_stmt(m, BlockStmt::If(ifs)) is Ok,
    ensures
        ({
            let r = lower_stmt(m, BlockStmt::If(ifs))->Ok_0;
            &&& r.blocks[m.curr].term matches Some(Terminator::Br { then_block, else_block, .. })
            &&& then_block != else_block
            &&& 0 <= then_block.0 < r.blocks.len()
            &&& 0 <= else_block.0 < r.blocks.len()
            &&& stores_to(r.blocks[then_block.0 as int].insts, loc_var(lt.location))
            &&& stores_to(r.blocks[else_block.0 as int].insts, loc_var(le.location))
        }),
{
    let n = m.blocks.len();
    let then_block = BlockId(n as usize);
    let else_block = BlockId((n + 1) as usize);
    let merge = BlockId((n + 2) as usize);
    let m0 = m.with_block().with_block().with_block();
    lemma_with_blocks(m);
    law_lower_expr_appends(m0, *ifs.condition);
    let (m1, cond) = lower_expr(m0, *ifs.condition);
    lemma_grew_carried(m1, m0);
    lemma_carried_trans(m, m0, m1);
    let br = Terminator::Br { cond, then_block, else_block };
    lemma_carried_steps(m1, br);
    lemma_carried_trans(m, m1, m1.set_term(br));
    lemma_goto_new(m1.set_term(br), m, then_block);
    let m2 = m1.set_term(br).goto(then_block);
    assert(m2.blocks[m.curr].term == Some(br));
    assert(m2.blocks[n as int] == m0.blocks[n as int]);
    assert(m2.blocks[n + 1int] == m0.blocks[n + 1int]);
    let tstmts = ifs.then_branch.statements@;
    lemma_let_stored(m2, tstmts, 0, kt, lt);
    lemma_lowered_carried(m2, tstmts);
    let m3 = lower_stmts(m2, tstmts, 0)->Ok_0;
    lemma_carried_trans(m, m2, m3);
    let j = Terminator::Jump { block: merge };
    let c3 = close_with(m3, j);
    lemma_carried_steps(m3, j);
    lemma_carried_trans(m, m3, c3);
    lemma_goto_new(c3, m, else_block);
    let m4 = c3.goto(else_block);
    assert(m3.blocks[n + 1int] == m2.blocks[n + 1int]);
    assert(c3.blocks[n as int].insts == m3.blocks[n as int].insts);
    assert(c3.blocks[n + 1int].insts == m3.blocks[n + 1int].insts);
    assert(m3.blocks[m.curr] == m2.blocks[m.curr]);
    assert(c3.blocks[m.curr] == m3.blocks[m.curr]);
    let estmts = ifs.else_branch->0.statements@;
    lemma_let_stored(m4, estmts, 0, ke, le);
    lemma_lowered_carried(m4, estmts);
    let m5 = lower_stmts(m4, estmts, 0)->Ok_0;
    assert(m5.blocks[n as int] == m4.blocks[n as int]);
    assert(m5.blocks[m.curr] == m4.blocks[m.curr]);
    let c5 = close_with(m5, j);
    assert(c5.blocks[n as int].insts == m5.blocks[n as int].insts);
    assert(c5.blocks[n + 1int].insts == m5.blocks[n + 1int].insts);
    assert(c5.blocks[m.curr] == m5.blocks[m.curr]);
    let r = c5.goto(merge);
    assert(lower_stmt(m, BlockStmt::If(ifs)) == Ok::<IrModel, IrError>(r));
}

/// Lowering `while c { .. }` lowers its body into a block of its own: the
/// current block jumps to the condition's block, whose branch sends the
/// true case to a block other than the one it leaves the loop to, and that
/// block stores into the variable of every `let` of a body that begins
/// with `let`s and expressions (the `k`-th statement here).
pub proof fn law_while_body_lowered(m: IrModel, w: WhileStmt, k: int, l: LetStmt)
    requires
        m.wf(),
        m.blocks.len() + stmt_blocks(BlockStmt::While(w)) <= usize::MAX,
        0 <= k < w.block.statements@.len(),
        forall|j: int| 0 <= j < k ==> straight(#[trigger] w.block.statements@[j]),
        w.block.statements@[k] == BlockStmt::Let(l),
        lower_stmt(m, BlockStmt::While(w)) is Ok,
    ensures
        ({
            let r = lower_stmt(m, BlockStmt::While(w))->Ok_0;
            &&& r.blocks[m.curr].term matches Some(Terminator::Jump { block: cb })
            &&& 0 <= cb.0 < r.blocks.len()
            &&& r.blocks[cb.0 as int].term matches Some(Terminator::Br { then_block, else_block, .. })
            &&& then_block != else_block
            &&& 0 <= then_block.0 < r.blocks.len()
            &&& stores_to(r.blocks[then_block.0 as int].insts, loc_var(l.location))
        }),
{
    let n = m.blocks.len();
    let cond_block = BlockId(n as usize);
    let body = BlockId((n + 1) as usize);
    let exit = BlockId((n + 2) as usize);
    let w0 = m.with_block().with_block().with_block();
    lemma_with_blocks(m);
    let jc = Terminator::Jump { block: cond_block };
    let c0 = w0.set_term(jc);
    lemma_carried_steps(w0, jc);
    lemma_carried_trans(m, w0, c0);
    lemma_goto_new(c0, m, cond_block);
    let m1 = c0.goto(cond_block);
    law_lower_expr_appends(m1, *w.condition);
    let (m2, cond) = lower_expr(m1, *w.condition);
    assert(m2.blocks[m.curr] == m1.blocks[m.curr]);
    let br = Terminator::Br { cond, then_block: body, else_block: exit };
    let b2 = m2.set_term(br);
    let m3 = b2.goto(body);
    let m4 = IrModel { loop_stack: m3.loop_stack.push((cond_block, exit)), ..m3 };
    assert(m4.blocks[m.curr].term == Some(jc));
    assert(m4.blocks[n as int].term == Some(br));
    assert(m4.wf());
    let stmts = w.block.statements@;
    lemma_let_stored(m4, stmts, 0, k, l);
    lemma_lowered_carried(m4, stmts);
    let m5 = lower_stmts(m4, stmts, 0)->Ok_0;
    assert(m5.blocks[m.curr] == m4.blocks[m.curr]);
    assert(m5.blocks[n as int] == m4.blocks[n as int]);
    let m6 = IrModel { loop_stack: m5.loop_stack.drop_last(), ..m5 };
    let c6 = close_with(m6, jc);
    assert(c6.blocks[m.curr] == m5.blocks[m.curr]);
    assert(c6.blocks[n as int] == m5.blocks[n as int]);
    assert(c6.blocks[n + 1int].insts == m5.blocks[n + 1int].insts);
    assert(lower_stmt(m, BlockStmt::While(w)) == Ok::<IrModel, IrError>(c6.goto(exit)));
}

/// Emits a `GetParam` for each parameter from the `k`-th on, the last one
/// first.
pub open spec fn get_params(m: IrModel, args: Seq<Arg>, k: int) -> IrModel
    decreases args.len() - k,
{
    if k < 0 || k >= args.len() {
        m
    } else {
        get_params(m, args, k + 1).emit(Instruction::GetParam { dst: loc_var(args[k].location) })
    }
}

/// Ends the current block with a bare return where a function without a
/// return type runs off its end.
pub open spec fn finish_model(m: IrModel, ret: Option<TypeId>) -> IrModel {
    if !m.has_term() && ret is None {
        m.set_term(Terminator::Ret(None))
    } else {
        m
    }
}

/// Every block has its terminator.
pub open spec fn all_terminated(m: IrModel) -> bool {
    forall|j: int| 0 <= j < m.blocks.len() ==> (#[trigger] m.blocks[j]).term is Some
}

/// A function of the IR has the blocks and temporaries of a builder's
/// state and the name, parameter types, local types and return type of
/// its definition.
pub open spec fn fn_matches(f: Function, m: IrModel, def: FunctionDef) -> bool {
    &&& f.name == def.name
    &&& f.args@ == def.args@.map_values(|a: Arg| a.type_)
    &&& f.blocks@.len() == m.blocks.len()
    &&& forall|j: int|
        0 <= j < m.blocks.len() ==> {
            &&& (#[trigger] f.blocks@[j]).id == m.blocks[j].id
            &&& f.blocks@[j].insts@ == m.blocks[j].insts
            &&& m.blocks[j].term == Some(f.blocks@[j].term)
        }
    &&& f.temps@ == m.temps
    &&& f.locals@ == def.locals@
    &&& f.ret == def.return_type
}

/// Builds the IR of one function: its temporaries, its blocks, the block
/// instructions go to, and the loops it is inside of (each with its
/// condition block and its exit block).
pub struct IrBuilder {
    temps: Vec<TypeId>,
    loop_stack: Vec<(BlockId, BlockId)>,
    blocks: Vec<IrBasicBlock>,
    curr: BlockId,
}

/// The mathematical value of a block under construction.
pub open spec fn block_model(b: IrBasicBlock) -> BlockModel {
    BlockModel { id: b.id, insts: b.insts@, term: b.term }
}

impl View for IrBuilder {
    type V = IrModel;

    closed spec fn view(&self) -> IrModel {
        IrModel {
            blocks: self.blocks@.map_values(|b: IrBasicBlock| block_model(b)),
            temps: self.temps@,
            loop_stack: self.loop_stack@,
            curr: self.curr.0 as int,
        }
    }
}

impl IrBuilder {
    /// A builder with one empty block, the current one.
    pub fn new() -> (b: IrBuilder)
        ensures
            b@.wf(),
            b@ == (IrModel {
                blocks: seq![BlockModel { id: BlockId(0), insts: Seq::empty(), term: None }],
                temps: Seq::empty(),
                loop_stack: Seq::empty(),
                curr: 0,
            }),
    {
        let block = IrBasicBlock { id: BlockId(0), insts: Vec::new(), term: None };
        let mut blocks: Vec<IrBasicBlock> = Vec::new();
        blocks.push(block);
        let b = IrBuilder { temps: Vec::new(), loop_stack: Vec::new(), blocks, curr: BlockId(0) };
        assert(b@.blocks =~= seq![BlockModel { id: BlockId(0), insts: Seq::empty(), term: None }]);
        b
    }

    /// Adds a temporary of a type and gives back its index.
    pub fn add_temp(&mut self, type_id: TypeId) -> (id: usize)
        ensures
            id == old(self)@.temps.len(),
            final(self)@ == old(self)@.with_temp(type_id),
    {
        let id = self.temps.len();
        self.temps.push(type_id);
        id
    }

    /// Adds an empty block and gives back its id.
    pub fn new_block(&mut self) -> (id: BlockId)
        ensures
            id == BlockId(old(self)@.blocks.len() as usize),
            final(self)@ == old(self)@.with_block(),
    {
        let id = BlockId(self.blocks.len());
        self.blocks.push(IrBasicBlock { id, insts: Vec::new(), term: None });
        assert(self@.blocks =~= old(self)@.with_block().blocks);
        id
    }

    /// Makes a block the current one.
    pub fn set_curr(&mut self, id: BlockId)
        ensures
            final(self)@ == old(self)@.goto(id),
            old(self)@.wf() && id.0 < old(self)@.blocks.len() ==> final(self)@.wf(),
    {
        self.curr = id;
    }

    /// Adds an instruction to the current block.
    pub fn emit(&mut self, inst: Instruction)
        requires
            old(self)@.wf(),
        ensures
            final(self)@ == old(self)@.emit(inst),
            final(self)@.wf(),
    {
        let c = self.curr.0;
        let ghost old_blocks = self.blocks@;
        let mut b = self.blocks.remove(c);
        b.insts.push(inst);
        self.blocks.insert(c, b);
        assert(self.blocks@ =~= old_blocks.update(c as int, b));
        assert(self@.blocks =~= old(self)@.emit(inst).blocks);
    }

    /// Sets the terminator of the current block.
    pub fn emit_term(&mut self, term: Terminator)
        requires
            old(self)@.wf(),
        ensures
            final(self)@ == old(self)@.set_term(term),
            final(self)@.wf(),
    {
        let c = self.curr.0;
        let ghost old_blocks = self.blocks@;
        let mut b = self.blocks.remove(c);
        b.term = Some(term);
        self.blocks.insert(c, b);
        assert(self.blocks@ =~= old_blocks.update(c as int, b));
        assert(self@.blocks =~= old(self)@.set_term(term).blocks);
    }

    /// Whether the current block has its terminator.
    pub fn has_term(&self) -> (b: bool)
        requires
            self@.wf(),
        ensures
            b == self@.has_term(),
    {
        self.blocks[self.curr.0].term.is_some()
    }

    /// Lowers an expression into the current block and gives back the
    /// operand that holds its value.
    pub fn vist_expr(&mut self, expr: &Expr) -> (r: Operand)
        requires
            old(self)@.wf(),
        ensures
            final(self)@.wf(),
            (final(self)@, r) == lower_expr(old(self)@, *expr),
            final(self)@.blocks.len() == old(self)@.blocks.len(),
            final(self)@.curr == old(self)@.curr,
            final(self)@.loop_stack == old(self)@.loop_stack,
        decreases expr, 0int,
    {
        match expr {
            Expr::Literal { value, .. } => match value {
                Literal::Nil => Operand::ConstNil,
                Literal::Bool(b) => Operand::ConstBool(*b),
                Literal::Int(i) => Operand::ConstInt(*i),
                Literal::Float(f) => Operand::ConstFloat(f.clone()),
                Literal::String(s) => Operand::ConstString(s.clone()),
            },
            Expr::Unary { op, expr: e, ty } => {
                let dst = Variable::Temp(self.add_temp(*ty));
                let src = self.vist_expr(e);
                self.emit(Instruction::UnaryOp { dst, op: *op, src });
                Operand::Variable(dst)
            },
            Expr::Binary { left, op, right, ty } => {
                let dst = Variable::Temp(self.add_temp(*ty));
                let l = self.vist_expr(left);
                let r = self.vist_expr(right);
                self.emit(Instruction::BinaryOp { dst, op: *op, left: l, right: r });
                Operand::Variable(dst)
            },
            Expr::Call { func, args, ty } => {
                let ghost m0 = self@;
                let mut i: usize = 0;
                while i < args.len()
                    invariant
                        i <= args@.len(),
                        self@.wf(),
                        self@ == lower_params(m0, args@, i as int),
                        self@.blocks.len() == m0.blocks.len(),
                        self@.curr == m0.curr,
                        self@.loop_stack == m0.loop_stack,
                        *expr is Call && expr->Call_args == *args,
                    decreases args@.len() - i,
                {
                    proof {
                        assert(decreases_to!(*expr => args@[i as int]));
                    }
                    let src = self.vist_expr(&args[i]);
                    self.emit(Instruction::Param { src });
                    i = i + 1;
                }
                let dst = Variable::Temp(self.add_temp(*ty));
                let f = self.vist_expr(func);
                self.emit(Instruction::Call { dst, func: f, param_cnt: args.len() });
                Operand::Variable(dst)
            },
            Expr::Index { target, index, ty } => {
                let dst = Variable::Temp(self.add_temp(*ty));
                let src = self.vist_expr(target);
                let idx = self.vist_expr(index);
                self.emit(Instruction::Index { dst, src, idx });
                Operand::Variable(dst)
            },
            Expr::Member { target, member, offset, member_ty } => {
                let dst = Variable::Temp(self.add_temp(*member_ty));
                let src = self.vist_expr(target);
                self.emit(Instruction::Member { dst, src, member: member.clone(), offset: *offset });
                Operand::Variable(dst)
            },
            Expr::Struct { struct_ty, fields } => {
                let dst = Variable::Temp(self.add_temp(*struct_ty));
                self.emit(Instruction::NewObject { dst, size: fields.len() });
                let ghost m0 = self@;
                let mut i: usize = 0;
                while i < fields.len()
                    invariant
                        i <= fields@.len(),
                        self@.wf(),
                        self@ == lower_fields(m0, dst, fields@, i as int),
                        self@.blocks.len() == m0.blocks.len(),
                        self@.curr == m0.curr,
                        self@.loop_stack == m0.loop_stack,
                        *expr is Struct && expr->Struct_fields == *fields,
                    decreases fields@.len() - i,
                {
                    proof {
                        assert(decreases_to!(*expr => fields@[i as int].expr));
                    }
                    let src = self.vist_expr(&fields[i].expr);
                    self.emit(Instruction::SetMember { dst, src, offset: fields[i].offset });
                    i = i + 1;
                }
                Operand::Variable(dst)
            },
            Expr::Path { location, .. } => Operand::Variable(Variable::from_location(*location)),
            Expr::Method { location, method_ty, .. } => {
                let dst = Variable::Temp(self.add_temp(*method_ty));
                self.emit(Instruction::Load { to: dst, from: Variable::from_location(*location) });
                Operand::Variable(dst)
            },
        }
    }

    /// Lowers a `return` and ends the current block with it.
    fn visit_return(&mut self, expr: &Option<Expr>)
        requires
            old(self)@.wf(),
        ensures
            final(self)@.wf(),
            final(self)@ == lower_return(old(self)@, *expr),
            final(self)@.blocks.len() == old(self)@.blocks.len(),
            final(self)@.loop_stack == old(self)@.loop_stack,
    {
        let var = match expr {
            Some(e) => Some(self.vist_expr(e)),
            None => None,
        };
        self.emit_term(Terminator::Ret(var));
    }

    /// Sets a terminator unless the current block has one.
    fn close_with(&mut self, t: Terminator)
        requires
            old(self)@.wf(),
        ensures
            final(self)@.wf(),
            final(self)@ == close_with(old(self)@, t),
            final(self)@.blocks.len() == old(self)@.blocks.len(),
            final(self)@.loop_stack == old(self)@.loop_stack,
    {
        if !self.has_term() {
            self.emit_term(t);
        }
    }

    /// Lowers the statements of a block into the current block and the
    /// blocks its control flow needs, as `lower_stmts` says.
    pub fn visit_block(&mut self, block: &Block) -> (r: Result<(), IrError>)
        requires
            old(self)@.wf(),
        ensures
            match lower_stmts(old(self)@, block.statements@, 0) {
                Ok(m) => r is Ok && final(self)@ == m && m.wf(),
                Err(e) => r == Err::<(), IrError>(e),
            },
            r is Ok ==> final(self)@.blocks.len() >= old(self)@.blocks.len(),
            r is Ok ==> final(self)@.loop_stack == old(self)@.loop_stack,
        decreases block, 1int,
    {
        let ghost m0 = self@;
        let mut i: usize = 0;
        while i < block.statements.len()
            invariant
                i <= block.statements@.len(),
                self@.wf(),
                m0 == old(self)@,
                self@.blocks.len() >= m0.blocks.len(),
                self@.loop_stack == m0.loop_stack,
                lower_stmts(m0, block.statements@, 0) == lower_stmts(self@, block.statements@, i as int),
            decreases block.statements@.len() - i,
        {
            proof {
                assert(decreases_to!(*block => block.statements@[i as int]));
            }
            match &block.statements[i] {
                BlockStmt::Return(ret) => {
                    self.visit_return(&ret.expr);
                    return Ok(());
                },
                stmt => {
                    match self.visit_stmt(stmt) {
                        Ok(()) => {},
                        Err(e) => return Err(e),
                    }
                },
            }
            i = i + 1;
        }
        Ok(())
    }

    /// Lowers one statement, as `lower_stmt` says.
    pub fn visit_stmt(&mut self, stmt: &BlockStmt) -> (r: Result<(), IrError>)
        requires
            old(self)@.wf(),
        ensures
            match lower_stmt(old(self)@, *stmt) {
                Ok(m) => r is Ok && final(self)@ == m && m.wf(),
                Err(e) => r == Err::<(), IrError>(e),
            },
            r is Ok ==> final(self)@.blocks.len() >= old(self)@.blocks.len(),
            r is Ok ==> final(self)@.loop_stack == old(self)@.loop_stack,
        decreases stmt, 0int,
    {
        match stmt {
            BlockStmt::Let(let_stmt) => {
                let src = self.vist_expr(&let_stmt.expr);
                self.emit(Instruction::StoreLocal { src, dst: Variable::from_location(let_stmt.location) });
                Ok(())
            },
            BlockStmt::Assign(assign_stmt) => match &assign_stmt.target {
                Expr::Index { target, index, .. } => {
                    let obj = match self.vist_expr(target) {
                        Operand::Variable(v) => v,
                        _ => return Err(IrError::AssignTarget),
                    };
                    let idx = self.vist_expr(index);
                    let src = self.vist_expr(&assign_stmt.expr);
                    self.emit(Instruction::SetIndex { obj, idx, src });
                    Ok(())
                },
                Expr::Member { target, offset, .. } => {
                    let dst = match self.vist_expr(target) {
                        Operand::Variable(v) => v,
                        _ => return Err(IrError::AssignTarget),
                    };
                    let src = self.vist_expr(&assign_stmt.expr);
                    self.emit(Instruction::SetMember { dst, src, offset: *offset });
                    Ok(())
                },
                Expr::Path { location, .. } => {
                    let src = self.vist_expr(&assign_stmt.expr);
                    self.emit(Instruction::StoreLocal { src, dst: Variable::from_location(*location) });
                    Ok(())
                },
                _ => Err(IrError::AssignTarget),
            },
            BlockStmt::Return(ret) => {
                self.visit_return(&ret.expr);
                Ok(())
            },
            BlockStmt::Expr(expr) => {
                self.vist_expr(expr);
                Ok(())
            },
            BlockStmt::Block(b) => self.visit_block(b),
            BlockStmt::If(if_stmt) => {
                let then_block = self.new_block();
                let else_block = self.new_block();
                let merge_block = self.new_block();
                let cond = self.vist_expr(&if_stmt.condition);
                self.emit_term(Terminator::Br { cond, then_block, else_block });
                self.set_curr(then_block);
                match self.visit_block(&if_stmt.then_branch) {
                    Ok(()) => {},
                    Err(e) => return Err(e),
                }
                self.close_with(Terminator::Jump { block: merge_block });
                self.set_curr(else_block);
                match &if_stmt.else_branch {
                    Some(else_branch) => match self.visit_block(else_branch) {
                        Ok(()) => {},
                        Err(e) => return Err(e),
                    },
                    None => {},
                }
                self.close_with(Terminator::Jump { block: merge_block });
                self.set_curr(merge_block);
                Ok(())
            },
            BlockStmt::While(while_stmt) => {
                let cond = self.new_block();
                let body = self.new_block();
                let exit = self.new_block();
                self.emit_term(Terminator::Jump { block: cond });
                self.set_curr(cond);
                let condition = self.vist_expr(&while_stmt.condition);
                self.emit_term(Terminator::Br { cond: condition, then_block: body, else_block: exit });
                self.set_curr(body);
                self.loop_stack.push((cond, exit));
                match self.visit_block(&while_stmt.block) {
                    Ok(()) => {},
                    Err(e) => return Err(e),
                }
                self.loop_stack.pop();
                self.close_with(Terminator::Jump { block: cond });
                self.set_curr(exit);
                Ok(())
            },
            BlockStmt::Break => {
                let n = self.loop_stack.len();
                if n == 0 {
                    return Err(IrError::BreakOutsideLoop);
                }
                let exit = self.loop_stack[n - 1].1;
                self.emit_term(Terminator::Jump { block: exit });
                Ok(())
            },
            BlockStmt::Continue => {
                let n = self.loop_stack.len();
                if n == 0 {
                    return Err(IrError::ContinueOutsideLoop);
                }
                let cond = self.loop_stack[n - 1].0;
                self.emit_term(Terminator::Jump { block: cond });
                Ok(())
            },
        }
    }


    /// Lowers a function: a `GetParam` for each parameter, the last one
    /// first, then its body; a function without a return type that runs
    /// off its end returns nil. Every block must end with a terminator.
    pub fn visit_fn(self, fn_def: &FunctionDef) -> (r: Result<Function, IrError>)
        requires
            self@.wf(),
        ensures
            match lower_stmts(get_params(self@, fn_def.args@, 0), fn_def.body.statements@, 0) {
                Err(e) => r == Err::<Function, IrError>(e),
                Ok(m) => {
                    let m2 = finish_model(m, fn_def.return_type);
                    if all_terminated(m2) {
                        r is Ok && fn_matches(r->Ok_0, m2, *fn_def)
                    } else {
                        r == Err::<Function, IrError>(IrError::MissingTerminator)
                    }
                },
            },
    {
        let mut builder = self;
        let ghost m0 = builder@;
        let mut k: usize = fn_def.args.len();
        while k > 0
            invariant
                k <= fn_def.args@.len(),
                builder@.wf(),
                builder@ == get_params(m0, fn_def.args@, k as int),
            decreases k,
        {
            k = k - 1;
            builder.emit(Instruction::GetParam { dst: Variable::from_location(fn_def.args[k].location) });
        }
        match builder.visit_block(&fn_def.body) {
            Ok(()) => {},
            Err(e) => return Err(e),
        }
        if !builder.has_term() && fn_def.return_type.is_none() {
            builder.emit_term(Terminator::Ret(None));
        }
        let mut args: Vec<TypeId> = Vec::new();
        let mut i: usize = 0;
        while i < fn_def.args.len()
            invariant
                i <= fn_def.args@.len(),
                args@ =~= fn_def.args@.take(i as int).map_values(|a: Arg| a.type_),
            decreases fn_def.args@.len() - i,
        {
            args.push(fn_def.args[i].type_);
            i = i + 1;
        }
        assert(fn_def.args@.take(fn_def.args@.len() as int) =~= fn_def.args@);
        let mut locals: Vec<TypeId> = Vec::new();
        let mut j: usize = 0;
        while j < fn_def.locals.len()
            invariant
                j <= fn_def.locals@.len(),
                locals@ =~= fn_def.locals@.take(j as int),
            decreases fn_def.locals@.len() - j,
        {
            locals.push(fn_def.locals[j]);
            j = j + 1;
        }
        assert(fn_def.locals@.take(fn_def.locals@.len() as int) =~= fn_def.locals@);
        let ghost m2 = builder@;
        assert(m2 == finish_model(
            lower_stmts(get_params(m0, fn_def.args@, 0), fn_def.body.statements@, 0)->Ok_0,
            fn_def.return_type,
        ));
        let mut rest = builder.blocks;
        let mut blocks: Vec<BasicBlock> = Vec::new();
        let ghost n = rest@.len();
        while rest.len() > 0
            invariant
                blocks@.len() + rest@.len() == n,
                n == m2.blocks.len(),
                builder.temps@ == m2.temps,
                m0 == self@,
                args@ == fn_def.args@.map_values(|a: Arg| a.type_),
                locals@ == fn_def.locals@,
                lower_stmts(get_params(m0, fn_def.args@, 0), fn_def.body.statements@, 0) is Ok,
                m2 == finish_model(
                    lower_stmts(get_params(m0, fn_def.args@, 0), fn_def.body.statements@, 0)->Ok_0,
                    fn_def.return_type,
                ),
                forall|j: int| 0 <= j < rest@.len() ==> block_model(#[trigger] rest@[j]) == m2.blocks[blocks@.len() + j],
                forall|j: int|
                    0 <= j < blocks@.len() ==> {
                        &&& (#[trigger] blocks@[j]).id == m2.blocks[j].id
                        &&& blocks@[j].insts@ == m2.blocks[j].insts
                        &&& m2.blocks[j].term == Some(blocks@[j].term)
                    },
            decreases rest@.len(),
        {
            let b = rest.remove(0);
            proof {
                assert(block_model(b) == m2.blocks[blocks@.len() as int]);
            }
            match b.term {
                Some(t) => blocks.push(BasicBlock { id: b.id, insts: b.insts, term: t }),
                None => {
                    proof {
                        assert(m2.blocks[blocks@.len() as int].term is None);
                    }
                    return Err(IrError::MissingTerminator);
                },
            }
        }
        assert forall|j: int| 0 <= j < m2.blocks.len() implies (#[trigger] m2.blocks[j]).term is Some by {
            assert(blocks@[j].id == m2.blocks[j].id);
        }
        Ok(
            Function {
                name: fn_def.name.clone(),
                args,
                blocks,
                temps: builder.temps,
                locals,
                ret: fn_def.return_type,
            },
        )
    }

}

} // verus!
