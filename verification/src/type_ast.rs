use crate::ast::{BinaryOp, UnaryOp};
use crate::scope::Location;
use crate::token::Literal;
use crate::ty::TypeId;
use vstd::prelude::*;

verus! {

/// A program after type analysis.
pub struct Program {
    pub defs: Vec<Definition>,
}

/// A typed top-level definition.
pub enum Definition {
    StructDef(StructDef),
    FunctionDef(FunctionDef),
    ImplDef(ImplDef),
}

/// The functions and methods of a type.
pub struct ImplDef {
    pub ty: TypeId,
    pub functions: Vec<AssociatedFunction>,
}

/// A function of a type, or a method (with `self`).
pub enum AssociatedFunction {
    Function(FunctionDef),
    Method(FunctionDef),
}

/// A struct with typed fields.
pub struct StructDef {
    pub name: String,
    pub fields: Vec<Field>,
}

/// A typed field.
pub struct Field {
    pub name: String,
    pub type_: TypeId,
}

/// A typed function: its parameters, return type, the types of its local
/// slots, its body and the global slot that holds it.
pub struct FunctionDef {
    pub name: String,
    pub args: Vec<Arg>,
    pub return_type: Option<TypeId>,
    pub locals: Vec<TypeId>,
    pub body: Block,
    pub idx: usize,
}

/// A typed parameter and where it lives.
pub struct Arg {
    pub name: String,
    pub type_: TypeId,
    pub location: Location,
}

/// A typed block.
pub struct Block {
    pub statements: Vec<BlockStmt>,
}

/// A typed statement.
pub enum BlockStmt {
    Let(LetStmt),
    Assign(AssignStmt),
    Return(ReturnStmt),
    Expr(Expr),
    Block(Box<Block>),
    If(IfStmt),
    While(WhileStmt),
    Break,
    Continue,
}

/// `let`, with the slot of the new variable.
pub struct LetStmt {
    pub var_name: String,
    pub location: Location,
    pub expr: Expr,
}

/// An assignment.
pub struct AssignStmt {
    pub target: Expr,
    pub expr: Expr,
}

/// A return.
pub struct ReturnStmt {
    pub expr: Option<Expr>,
}

/// A conditional.
pub struct IfStmt {
    pub condition: Box<Expr>,
    pub then_branch: Box<Block>,
    pub else_branch: Option<Box<Block>>,
}

/// A loop.
pub struct WhileStmt {
    pub condition: Box<Expr>,
    pub block: Box<Block>,
}

/// A typed expression.
pub enum Expr {
    Literal { value: Literal, ty: TypeId },
    Unary { op: UnaryOp, expr: Box<Expr>, ty: TypeId },
    Binary { left: Box<Expr>, op: BinaryOp, right: Box<Expr>, ty: TypeId },
    Call { func: Box<Expr>, args: Vec<Expr>, ty: TypeId },
    Index { target: Box<Expr>, index: Box<Expr>, ty: TypeId },
    Member { target: Box<Expr>, member: String, offset: usize, member_ty: TypeId },
    Struct { struct_ty: TypeId, fields: Vec<FieldAssign> },
    Path { segments: Vec<PathSegment>, location: Location, ty: TypeId },
    Method { this_ty: TypeId, method_name: String, method_ty: TypeId, location: Location },
}

impl Expr {
    /// The type of an expression.
    pub open spec fn spec_ty(&self) -> TypeId {
        match self {
            Expr::Literal { ty, .. } => *ty,
            Expr::Unary { ty, .. } => *ty,
            Expr::Binary { ty, .. } => *ty,
            Expr::Call { ty, .. } => *ty,
            Expr::Index { ty, .. } => *ty,
            Expr::Member { member_ty, .. } => *member_ty,
            Expr::Struct { struct_ty, .. } => *struct_ty,
            Expr::Path { ty, .. } => *ty,
            Expr::Method { method_ty, .. } => *method_ty,
        }
    }

    /// The type of an expression.
    pub fn ty(&self) -> (t: &TypeId)
        ensures
            *t == self.spec_ty(),
    {
        match self {
            Expr::Literal { ty, .. } => ty,
            Expr::Unary { ty, .. } => ty,
            Expr::Binary { ty, .. } => ty,
            Expr::Call { ty, .. } => ty,
            Expr::Index { ty, .. } => ty,
            Expr::Member { member_ty: ty, .. } => ty,
            Expr::Struct { struct_ty, .. } => struct_ty,
            Expr::Path { ty, .. } => ty,
            Expr::Method { method_ty, .. } => method_ty,
        }
    }
}

/// A typed path segment.
pub struct PathSegment {
    pub ident: String,
    pub args: Vec<TypeId>,
}

/// A field initialiser, with the field's offset.
pub struct FieldAssign {
    pub name: String,
    pub offset: usize,
    pub expr: Expr,
}

} // verus!
