//! The mathematical value of a syntax tree: the shape of the tree of `ast`,
//! with sequences in place of vectors and character sequences in place of
//! strings.
use crate::ast::{
    Arg, BinaryOp, Block, BlockStmt, Expr, Field, FieldAssign, FunctionDef, PathSegment, Program,
    Statement, StructDef, Type, UnaryOp,
};
use crate::token::LiteralView;
use vstd::prelude::*;

verus! {

/// A type as a path of segments.
pub struct TypeView {
    pub segments: Seq<SegmentView>,
}

/// A path segment with its type arguments.
pub struct SegmentView {
    pub ident: Seq<char>,
    pub args: Seq<TypeView>,
}

/// An expression.
pub enum ExprView {
    Literal(LiteralView),
    Unary { op: UnaryOp, expr: Box<ExprView> },
    Binary { left: Box<ExprView>, op: BinaryOp, right: Box<ExprView> },
    Call { func: Box<ExprView>, args: Seq<ExprView> },
    Index { target: Box<ExprView>, index: Box<ExprView> },
    Member { target: Box<ExprView>, member: Seq<char> },
    Struct { struct_ty: TypeView, fields: Seq<FieldAssignView> },
    Path { segments: Seq<SegmentView> },
}

/// `name: expr` in a struct expression.
pub struct FieldAssignView {
    pub name: Seq<char>,
    pub expr: ExprView,
}

/// A statement of a block.
pub enum StmtView {
    Let { var_name: Seq<char>, expr: ExprView },
    Assign { target: ExprView, expr: ExprView },
    Return(Option<ExprView>),
    Expr(ExprView),
    Block(BlockView),
    If { condition: ExprView, then_branch: BlockView, else_branch: Option<BlockView> },
    While { condition: ExprView, block: BlockView },
    Break,
    Continue,
}

/// A block of statements.
pub struct BlockView {
    pub statements: Seq<StmtView>,
}

/// A parameter or a field: a name and a type.
pub struct BindingView {
    pub name: Seq<char>,
    pub type_: TypeView,
}

/// A function definition.
pub struct FunctionView {
    pub name: Seq<char>,
    pub args: Seq<BindingView>,
    pub return_type: Option<TypeView>,
    pub body: BlockView,
}

/// A struct definition.
pub struct StructView {
    pub name: Seq<char>,
    pub fields: Seq<BindingView>,
    pub functions: Seq<FunctionView>,
    pub methods: Seq<FunctionView>,
}

/// A top-level definition.
pub enum StatementView {
    StructDef(StructView),
    FunctionDef(FunctionView),
}

/// The value of a type.
pub open spec fn type_view(t: Type) -> TypeView
    decreases t,
{
    TypeView { segments: segments_view(t.segments@) }
}

/// The values of a sequence of types.
pub open spec fn types_view(s: Seq<Type>) -> Seq<TypeView>
    decreases s,
{
    Seq::new(
        s.len(),
        |k: int|
            if 0 <= k < s.len() {
                type_view(s[k])
            } else {
                TypeView { segments: Seq::empty() }
            },
    )
}

/// The value of a path segment.
pub open spec fn segment_view(s: PathSegment) -> SegmentView
    decreases s,
{
    SegmentView { ident: s.ident@, args: types_view(s.args@) }
}

/// The values of a sequence of path segments.
pub open spec fn segments_view(s: Seq<PathSegment>) -> Seq<SegmentView>
    decreases s,
{
    Seq::new(
        s.len(),
        |k: int|
            if 0 <= k < s.len() {
                segment_view(s[k])
            } else {
                SegmentView { ident: Seq::empty(), args: Seq::empty() }
            },
    )
}

/// The value of an expression.
pub open spec fn expr_view(e: Expr) -> ExprView
    decreases e,
{
    match e {
        Expr::Literal(l) => ExprView::Literal(l@),
        Expr::Unary { op, expr } => ExprView::Unary { op, expr: Box::new(expr_view(*expr)) },
        Expr::Binary { left, op, right } => ExprView::Binary {
            left: Box::new(expr_view(*left)),
            op,
            right: Box::new(expr_view(*right)),
        },
        Expr::Call { func, args } => ExprView::Call {
            func: Box::new(expr_view(*func)),
            args: exprs_view(args@),
        },
        Expr::Index { target, index } => ExprView::Index {
            target: Box::new(expr_view(*target)),
            index: Box::new(expr_view(*index)),
        },
        Expr::Member { target, member } => ExprView::Member {
            target: Box::new(expr_view(*target)),
            member: member@,
        },
        Expr::Struct { struct_ty, fields } => ExprView::Struct {
            struct_ty: type_view(struct_ty),
            fields: field_assigns_view(fields@),
        },
        Expr::Path { segments } => ExprView::Path { segments: segments_view(segments@) },
    }
}

/// The values of a sequence of expressions.
pub open spec fn exprs_view(s: Seq<Expr>) -> Seq<ExprView>
    decreases s,
{
    Seq::new(
        s.len(),
        |k: int|
            if 0 <= k < s.len() {
                expr_view(s[k])
            } else {
                ExprView::Path { segments: Seq::empty() }
            },
    )
}

/// The values of the field assignments of a struct expression.
pub open spec fn field_assigns_view(s: Seq<FieldAssign>) -> Seq<FieldAssignView>
    decreases s,
{
    Seq::new(
        s.len(),
        |k: int|
            if 0 <= k < s.len() {
                FieldAssignView { name: s[k].name@, expr: expr_view(s[k].expr) }
            } else {
                FieldAssignView { name: Seq::empty(), expr: ExprView::Path { segments: Seq::empty() } }
            },
    )
}

/// The value of a block.
pub open spec fn block_view(b: Block) -> BlockView
    decreases b,
{
    BlockView { statements: stmts_view(b.statements@) }
}

/// The values of a sequence of statements.
pub open spec fn stmts_view(s: Seq<BlockStmt>) -> Seq<StmtView>
    decreases s,
{
    Seq::new(
        s.len(),
        |k: int|
            if 0 <= k < s.len() {
                stmt_view(s[k])
            } else {
                StmtView::Break
            },
    )
}

/// The value of a statement.
pub open spec fn stmt_view(s: BlockStmt) -> StmtView
    decreases s,
{
    match s {
        BlockStmt::Let(l) => StmtView::Let { var_name: l.var_name@, expr: expr_view(l.expr) },
        BlockStmt::Assign(a) => StmtView::Assign {
            target: expr_view(a.target),
            expr: expr_view(a.expr),
        },
        BlockStmt::Return(r) => StmtView::Return(
            match r.expr {
                Some(e) => Some(expr_view(e)),
                None => None,
            },
        ),
        BlockStmt::Expr(e) => StmtView::Expr(expr_view(e)),
        BlockStmt::Block(b) => StmtView::Block(block_view(*b)),
        BlockStmt::If(i) => StmtView::If {
            condition: expr_view(*i.condition),
            then_branch: block_view(*i.then_branch),
            else_branch: match i.else_branch {
                Some(b) => Some(block_view(*b)),
                None => None,
            },
        },
        BlockStmt::While(w) => StmtView::While {
            condition: expr_view(*w.condition),
            block: block_view(*w.block),
        },
        BlockStmt::Break => StmtView::Break,
        BlockStmt::Continue => StmtView::Continue,
    }
}

/// The value of a parameter.
pub open spec fn arg_view(a: Arg) -> BindingView {
    BindingView { name: a.name@, type_: type_view(a.type_) }
}

/// The value of a field.
pub open spec fn field_view(f: Field) -> BindingView {
    BindingView { name: f.name@, type_: type_view(f.type_) }
}

/// The values of a sequence of parameters.
pub open spec fn args_view(s: Seq<Arg>) -> Seq<BindingView> {
    s.map_values(|a: Arg| arg_view(a))
}

/// The values of a sequence of fields.
pub open spec fn fields_view(s: Seq<Field>) -> Seq<BindingView> {
    s.map_values(|f: Field| field_view(f))
}

/// The values of a sequence of function definitions.
pub open spec fn functions_view(s: Seq<FunctionDef>) -> Seq<FunctionView> {
    s.map_values(|f: FunctionDef| function_view(f))
}

/// The values of a sequence of top-level definitions.
pub open spec fn statements_view(s: Seq<Statement>) -> Seq<StatementView> {
    s.map_values(|d: Statement| statement_view(d))
}

/// The value of a function definition.
pub open spec fn function_view(f: FunctionDef) -> FunctionView {
    FunctionView {
        name: f.name@,
        args: args_view(f.args@),
        return_type: match f.return_type {
            Some(t) => Some(type_view(t)),
            None => None,
        },
        body: block_view(f.body),
    }
}

/// The value of a struct definition.
pub open spec fn struct_view(s: StructDef) -> StructView {
    StructView {
        name: s.name@,
        fields: fields_view(s.fields@),
        functions: functions_view(s.functions@),
        methods: functions_view(s.methods@),
    }
}

/// The value of a top-level definition.
pub open spec fn statement_view(s: Statement) -> StatementView {
    match s {
        Statement::StructDef(d) => StatementView::StructDef(struct_view(d)),
        Statement::FunctionDef(f) => StatementView::FunctionDef(function_view(f)),
    }
}

/// The value of a program: its definitions in order.
pub open spec fn program_view(p: Program) -> Seq<StatementView> {
    statements_view(p.statements@)
}

} // verus!
