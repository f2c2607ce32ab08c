use crate::bytecode::ByteCode;
use crate::heap::Value;
use crate::tables::StructTable;
use vstd::prelude::*;

verus! {

/// A constant of a compiled package. A float constant keeps the text of its
/// literal; the host turns it into bits when it loads the package.
#[derive(PartialEq, Eq, Hash, Debug)]
pub enum ConstValue {
    Nil,
    Bool(bool),
    Int(i64),
    Float(String),
    String(String),
}

/// A constant as a mathematical value.
pub enum ConstView {
    Nil,
    Bool(bool),
    Int(i64),
    Float(Seq<char>),
    String(Seq<char>),
}

impl View for ConstValue {
    type V = ConstView;

    open spec fn view(&self) -> ConstView {
        match self {
            ConstValue::Nil => ConstView::Nil,
            ConstValue::Bool(b) => ConstView::Bool(*b),
            ConstValue::Int(i) => ConstView::Int(*i),
            ConstValue::Float(s) => ConstView::Float(s@),
            ConstValue::String(s) => ConstView::String(s@),
        }
    }
}

/// A function of a compiled package. A native function is provided by the
/// host and has no code here.
pub enum Function {
    Native { name: String },
    Custom { name: String, codes: Vec<ByteCode>, local_var_cnt: u32, temp_var_cnt: u32 },
}

/// The name of a function of a package.
pub open spec fn function_name(f: Function) -> Seq<char> {
    match f {
        Function::Native { name } => name@,
        Function::Custom { name, .. } => name@,
    }
}

/// A compiled program: its constants, the initial values of its globals, its
/// structs, its functions and the index of `main`.
pub struct Package {
    pub constants: Vec<ConstValue>,
    pub global: Vec<Value>,
    pub structs: StructTable,
    pub functions: Vec<Function>,
    pub entry_function: usize,
}

} // verus!
