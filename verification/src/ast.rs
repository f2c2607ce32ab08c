use crate::token::Literal;
use vstd::prelude::*;

verus! {

/// A parsed program: its top-level definitions in order.
pub struct Program {
    pub statements: Vec<Statement>,
}

/// A top-level definition.
pub enum Statement {
    StructDef(StructDef),
    FunctionDef(FunctionDef),
}

/// A struct with its fields, its associated functions and its methods
/// (functions whose first parameter is `self`).
pub struct StructDef {
    pub name: String,
    pub fields: Vec<Field>,
    pub functions: Vec<FunctionDef>,
    pub methods: Vec<FunctionDef>,
}

/// A type written as a path: `a::b<T, U>::c`.
pub struct Type {
    pub segments: Vec<PathSegment>,
}

/// One segment of a path, with its type arguments.
pub struct PathSegment {
    pub ident: String,
    pub args: Vec<Type>,
}

/// A field of a struct.
pub struct Field {
    pub name: String,
    pub type_: Type,
}

/// A function definition.
pub struct FunctionDef {
    pub name: String,
    pub args: Vec<Arg>,
    pub return_type: Option<Type>,
    pub body: Block,
}

/// A parameter of a function.
pub struct Arg {
    pub name: String,
    pub type_: Type,
}

/// A block of statements.
pub struct Block {
    pub statements: Vec<BlockStmt>,
}

/// A statement of a block.
pub enum BlockStmt {
    Let(LetStmt),
    Assign(AssignStmt),
    Return(ReturnStmt),
    Expr(Expr),
    Block(Box<Block>),
    If(IfStmt),
    While(WhileStmt),
    Break,
    Continue,
}

/// `let name = expr`
pub struct LetStmt {
    pub var_name: String,
    pub expr: Expr,
}

/// `target = expr;`
pub struct AssignStmt {
    pub target: Expr,
    pub expr: Expr,
}

/// `return expr` or `return;`
pub struct ReturnStmt {
    pub expr: Option<Expr>,
}

/// `if condition { .. } else { .. }`
pub struct IfStmt {
    pub condition: Box<Expr>,
    pub then_branch: Box<Block>,
    pub else_branch: Option<Box<Block>>,
}

/// `while condition { .. }`
pub struct WhileStmt {
    pub condition: Box<Expr>,
    pub block: Box<Block>,
}

/// An expression.
pub enum Expr {
    Literal(Literal),
    Unary { op: UnaryOp, expr: Box<Expr> },
    Binary { left: Box<Expr>, op: BinaryOp, right: Box<Expr> },
    Call { func: Box<Expr>, args: Vec<Expr> },
    Index { target: Box<Expr>, index: Box<Expr> },
    Member { target: Box<Expr>, member: String },
    Struct { struct_ty: Type, fields: Vec<FieldAssign> },
    Path { segments: Vec<PathSegment> },
}

/// `name: expr` in a struct expression.
pub struct FieldAssign {
    pub name: String,
    pub expr: Expr,
}

/// A prefix operator.
#[derive(Clone, Copy, PartialEq, Eq, Structural, Debug)]
pub enum UnaryOp {
    /// `+x`
    Plus,
    /// `-x`
    Minus,
    /// `!x`
    Not,
    /// `~x`
    BitNot,
}

/// An infix operator.
#[derive(Clone, Copy, PartialEq, Eq, Structural, Debug)]
pub enum BinaryOp {
    /// `+`
    Add,
    /// `-`
    Subtract,
    /// `*`
    Multiply,
    /// `/`
    Divide,
    /// `%`
    Modulo,
    /// `&`
    BitAnd,
    /// `|`
    BitOr,
    /// `^`
    BitXor,
    /// `<<`
    ShiftLeft,
    /// `>>`
    ShiftRight,
    /// `==`
    Equal,
    /// `!=`
    NotEqual,
    /// `<`
    Less,
    /// `<=`
    LessEqual,
    /// `>`
    Greater,
    /// `>=`
    GreaterEqual,
    /// `&&`
    And,
    /// `||`
    Or,
}

impl Type {
    /// A copy of this type.
    pub fn duplicate(&self) -> (t: Type)
        ensures
            t.segments@.len() == self.segments@.len(),
        decreases self, 0int,
    {
        let mut segments: Vec<PathSegment> = Vec::new();
        let mut i: usize = 0;
        while i < self.segments.len()
            invariant
                i <= self.segments@.len(),
                segments@.len() == i,
            decreases self.segments@.len() - i,
        {
            proof {
                assert(decreases_to!(*self => self.segments@[i as int]));
            }
            segments.push(self.segments[i].duplicate());
            i = i + 1;
        }
        Type { segments }
    }
}

impl PathSegment {
    /// A copy of this segment.
    pub fn duplicate(&self) -> (s: PathSegment)
        ensures
            s.ident == self.ident,
        decreases self, 0int,
    {
        let mut args: Vec<Type> = Vec::new();
        let mut i: usize = 0;
        while i < self.args.len()
            invariant
                i <= self.args@.len(),
            decreases self.args@.len() - i,
        {
            proof {
                assert(decreases_to!(*self => self.args@[i as int]));
            }
            args.push(self.args[i].duplicate());
            i = i + 1;
        }
        PathSegment { ident: self.ident.clone(), args }
    }
}

} // verus!
