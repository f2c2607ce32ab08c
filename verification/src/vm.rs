use crate::bytecode::{Area, ByteCode, Loc};
use crate::heap::{
    DataView, GcData, GcHandle, GcMark, GcValue, Mem, ObjView, Value, data_view, obj_view,
};
use crate::package::{ConstValue, Function, Package};
use vstd::prelude::*;

verus! {

/// Where a call goes on when the callee returns: the caller's function,
/// instruction and frame, and the location that gets the returned value.
#[derive(Clone, Copy, PartialEq, Eq, Structural, Debug)]
pub struct CallFrame {
    pub func: usize,
    pub pc: usize,
    pub local_offset: usize,
    pub temp_offset: usize,
    pub dst: Loc,
}

/// An ordering of two values.
#[derive(Clone, Copy, PartialEq, Eq, Structural, Debug)]
pub enum Order {
    Less,
    Equal,
    Greater,
}

/// A comparison of the bytecode.
#[derive(Clone, Copy, PartialEq, Eq, Structural, Debug)]
pub enum CmpOp {
    Eq,
    Ne,
    Lt,
    Le,
    Gt,
    Ge,
}

/// Arithmetic that may reach a float.
#[derive(Clone, Copy, PartialEq, Eq, Structural, Debug)]
pub enum ArithOp {
    Add,
    Sub,
    Mul,
    Div,
}

/// An operation on two integers only.
#[derive(Clone, Copy, PartialEq, Eq, Structural, Debug)]
pub enum IntOp {
    Rem,
    And,
    Or,
    Xor,
    Shl,
    Shr,
}

/// An operation on floats, which the host carries out.
#[derive(Clone, Copy, PartialEq, Eq, Structural, Debug)]
pub enum FloatOp {
    Arith(ArithOp),
    Compare(CmpOp),
}

/// Work the host owes the machine: an operation on two values, at least one
/// of them a float (an integer operand is converted to a float), whose
/// result goes to `dst`.
#[derive(Clone, Copy, PartialEq, Eq, Structural, Debug)]
pub struct FloatRequest {
    pub op: FloatOp,
    pub left: Value,
    pub right: Value,
    pub dst: Loc,
}

/// The host's answer to a request: the bits of an arithmetic result, or
/// how the two floats compare (`None` where one is NaN).
#[derive(Clone, Copy, PartialEq, Eq, Structural, Debug)]
pub enum FloatAnswer {
    Number(u64),
    Order(Option<Order>),
}

/// What one step of the machine came to.
#[derive(Clone, Copy, PartialEq, Eq, Structural, Debug)]
pub enum Outcome {
    /// The step is done; the machine goes on.
    Running,
    /// The entry function returned this value.
    Finished(Value),
    /// The step needs the host to carry out float work.
    Float(FloatRequest),
    /// The instruction cannot be carried out (an operand of the wrong kind,
    /// an overflow, a division by zero, an index or location out of bounds,
    /// a missing object or parameter, a call of a native function, a full
    /// heap). The machine is left as it was.
    Fault,
}

/// The state of the machine as mathematical values.
#[verifier::ext_equal]
pub struct VmModel {
    pub stack: Seq<Value>,
    pub local: Seq<Value>,
    pub temp: Seq<Value>,
    pub global: Seq<Value>,
    pub consts: Seq<Value>,
    pub objects: Map<u64, ObjView>,
    pub local_offset: int,
    pub temp_offset: int,
    pub frames: Seq<CallFrame>,
    pub func: int,
    pub pc: int,
}

/// The number of the sign bit of a float's encoding.
pub const SIGN_BIT: u64 = 0x8000_0000_0000_0000;

/// The int result of integer arithmetic; `None` where the operation
/// overflows or divides by zero.
pub open spec fn int_arith(op: ArithOp, a: i64, b: i64) -> Option<i64> {
    let r: int = match op {
        ArithOp::Add => a + b,
        ArithOp::Sub => a - b,
        ArithOp::Mul => a * b,
        ArithOp::Div => if b == 0 { 0 } else { trunc_div(a as int, b as int) },
    };
    if op == ArithOp::Div && b == 0 {
        None
    } else if i64::MIN <= r <= i64::MAX {
        Some(r as i64)
    } else {
        None
    }
}

/// Division rounding toward zero.
pub open spec fn trunc_div(a: int, b: int) -> int {
    let q = abs(a) / abs(b);
    if (a < 0) != (b < 0) {
        -q
    } else {
        q
    }
}

/// The remainder of division rounding toward zero, which has the sign of
/// the dividend.
pub open spec fn trunc_rem(a: int, b: int) -> int {
    let r = abs(a) % abs(b);
    if a < 0 {
        -r
    } else {
        r
    }
}

/// The absolute value.
pub open spec fn abs(a: int) -> int {
    if a < 0 {
        -a
    } else {
        a
    }
}

/// The integer result of `%`; `None` where it divides by zero or
/// overflows.
pub open spec fn int_rem(a: i64, b: i64) -> Option<i64> {
    if b == 0 || (a == i64::MIN && b == -1) {
        None
    } else {
        Some(trunc_rem(a as int, b as int) as i64)
    }
}

/// Whether a comparison holds of an ordering. Values without an ordering
/// (of different kinds, or a float that is not a number) are unequal: of
/// them only `Ne` holds.
pub open spec fn cmp_holds(op: CmpOp, o: Option<Order>) -> bool {
    match o {
        None => op == CmpOp::Ne,
        Some(o) => match op {
            CmpOp::Eq => o == Order::Equal,
            CmpOp::Ne => o != Order::Equal,
            CmpOp::Lt => o == Order::Less,
            CmpOp::Le => o != Order::Greater,
            CmpOp::Gt => o == Order::Greater,
            CmpOp::Ge => o != Order::Less,
        },
    }
}

/// The comparison instructions on two integers store whether the
/// comparison holds of them: `Eq` that they are equal, `Ne` that they
/// differ, `Lt`, `Le`, `Gt` and `Ge` that the first is less, at most,
/// greater, at least the second; the machine moves to the next
/// instruction.
pub proof fn law_int_comparisons(
    m: VmModel,
    pkg: &Package,
    h: u64,
    dst: Loc,
    left: Loc,
    right: Loc,
    a: i64,
    b: i64,
)
    requires
        m.holds(left),
        m.holds(right),
        m.holds(dst),
        m.read(left) == Value::Int(a),
        m.read(right) == Value::Int(b),
    ensures
        m.exec(pkg, ByteCode::Eq { dst, left, right }, h) == (m.next().write(dst, Value::Bool(a == b)), Outcome::Running),
        m.exec(pkg, ByteCode::Ne { dst, left, right }, h) == (m.next().write(dst, Value::Bool(a != b)), Outcome::Running),
        m.exec(pkg, ByteCode::Lt { dst, left, right }, h) == (m.next().write(dst, Value::Bool(a < b)), Outcome::Running),
        m.exec(pkg, ByteCode::Le { dst, left, right }, h) == (m.next().write(dst, Value::Bool(a <= b)), Outcome::Running),
        m.exec(pkg, ByteCode::Gt { dst, left, right }, h) == (m.next().write(dst, Value::Bool(a > b)), Outcome::Running),
        m.exec(pkg, ByteCode::Ge { dst, left, right }, h) == (m.next().write(dst, Value::Bool(a >= b)), Outcome::Running),
{
}

/// Values of different kinds are never equal: of the comparisons of an
/// integer with nil only `Ne` holds.
pub proof fn law_different_kinds_differ(m: VmModel, pkg: &Package, h: u64, dst: Loc, left: Loc, right: Loc, a: i64)
    requires
        m.holds(left),
        m.holds(right),
        m.holds(dst),
        m.read(left) == Value::Int(a),
        m.read(right) == Value::Nil,
    ensures
        m.exec(pkg, ByteCode::Eq { dst, left, right }, h) == (m.next().write(dst, Value::Bool(false)), Outcome::Running),
        m.exec(pkg, ByteCode::Ne { dst, left, right }, h) == (m.next().write(dst, Value::Bool(true)), Outcome::Running),
        m.exec(pkg, ByteCode::Lt { dst, left, right }, h) == (m.next().write(dst, Value::Bool(false)), Outcome::Running),
        m.exec(pkg, ByteCode::Ge { dst, left, right }, h) == (m.next().write(dst, Value::Bool(false)), Outcome::Running),
{
}

/// The order of two integers.
pub open spec fn int_order(a: int, b: int) -> Order {
    if a < b {
        Order::Less
    } else if a == b {
        Order::Equal
    } else {
        Order::Greater
    }
}

/// The lexicographic order of two strings, by code point.
pub open spec fn seq_order(a: Seq<char>, b: Seq<char>) -> Order
    decreases a.len(),
{
    if a.len() == 0 && b.len() == 0 {
        Order::Equal
    } else if a.len() == 0 {
        Order::Less
    } else if b.len() == 0 {
        Order::Greater
    } else if a[0] != b[0] {
        int_order(a[0] as int, b[0] as int)
    } else {
        seq_order(a.drop_first(), b.drop_first())
    }
}

/// The order of two handles: by slot, then by version.
pub open spec fn handle_order(a: GcHandle, b: GcHandle) -> Order {
    if a.slot() != b.slot() {
        int_order(a.slot(), b.slot())
    } else {
        int_order(a.version(), b.version())
    }
}

/// The result of comparing two values that are not both floats: `Some` of
/// how they compare, with `None` inside where they do not; `None` where a
/// string's object is missing.
pub open spec fn compare_values(objects: Map<u64, ObjView>, a: Value, b: Value) -> Option<
    Option<Order>,
> {
    match (a, b) {
        (Value::Nil, Value::Nil) => Some(Some(Order::Equal)),
        (Value::Bool(x), Value::Bool(y)) => Some(
            Some(int_order(if x { 1int } else { 0int }, if y { 1int } else { 0int })),
        ),
        (Value::Int(x), Value::Int(y)) => Some(Some(int_order(x as int, y as int))),
        (Value::String(x), Value::String(y)) => if x == y {
            Some(Some(Order::Equal))
        } else if !objects.dom().contains(x.0) || !objects.dom().contains(y.0) {
            None
        } else {
            match (objects[x.0].data, objects[y.0].data) {
                (DataView::Str(s), DataView::Str(t)) => Some(Some(seq_order(s, t))),
                _ => Some(None),
            }
        },
        (Value::Struct(x), Value::Struct(y)) => Some(Some(handle_order(x, y))),
        (Value::Vec(x), Value::Vec(y)) => Some(Some(handle_order(x, y))),
        (Value::Fn(x), Value::Fn(y)) => Some(Some(int_order(x as int, y as int))),
        _ => Some(None),
    }
}

/// Whether a value is a number the host can take as a float operand.
pub open spec fn is_number(v: Value) -> bool {
    v is Int || v is Float
}

/// Keeps the first `n` values, or all of them where there are fewer.
pub open spec fn truncated(s: Seq<Value>, n: int) -> Seq<Value> {
    if 0 <= n <= s.len() {
        s.take(n)
    } else {
        s
    }
}

/// What the machine finds at its current instruction.
pub enum Fetched {
    /// An instruction.
    Code(ByteCode),
    /// The end of the function's code, which returns nil.
    End,
    /// No function of bytecode is running.
    Bad,
}

impl VmModel {
    /// The absolute index a location reaches in its area.
    pub open spec fn slot(self, l: Loc) -> int {
        match l.area() {
            Area::Local => self.local_offset + l.index(),
            Area::Temp => self.temp_offset + l.index(),
            _ => l.index(),
        }
    }

    /// The values of the area a location points into.
    pub open spec fn area_values(self, l: Loc) -> Seq<Value> {
        match l.area() {
            Area::Local => self.local,
            Area::Temp => self.temp,
            Area::Global => self.global,
            Area::Const => self.consts,
        }
    }

    /// Whether a location holds a value.
    pub open spec fn holds(self, l: Loc) -> bool {
        0 <= self.slot(l) < self.area_values(l).len()
    }

    /// The value at a location.
    pub open spec fn read(self, l: Loc) -> Value {
        self.area_values(l)[self.slot(l)]
    }

    /// The state with a value stored at a location.
    pub open spec fn write(self, l: Loc, v: Value) -> VmModel {
        let i = self.slot(l);
        match l.area() {
            Area::Local => VmModel { local: self.local.update(i, v), ..self },
            Area::Temp => VmModel { temp: self.temp.update(i, v), ..self },
            Area::Global => VmModel { global: self.global.update(i, v), ..self },
            Area::Const => VmModel { consts: self.consts.update(i, v), ..self },
        }
    }

    /// The state with the next instruction at `pc`.
    pub open spec fn goto(self, pc: int) -> VmModel {
        VmModel { pc, ..self }
    }

    /// The state past the current instruction.
    pub open spec fn next(self) -> VmModel {
        self.goto(self.pc + 1)
    }

    /// Stores a value, or faults where the location holds none.
    pub open spec fn put(self, after: VmModel, dst: Loc, v: Value) -> (VmModel, Outcome) {
        if self.holds(dst) {
            (after.write(dst, v), Outcome::Running)
        } else {
            (self, Outcome::Fault)
        }
    }

    /// The result of a step that faults.
    pub open spec fn fault(self) -> (VmModel, Outcome) {
        (self, Outcome::Fault)
    }

    /// Asks the host for float work, or faults where `dst` holds no value.
    pub open spec fn ask(self, req: FloatRequest) -> (VmModel, Outcome) {
        if self.holds(req.dst) {
            (self.next(), Outcome::Float(req))
        } else {
            self.fault()
        }
    }

    /// `Pos`, `Neg`, `Not` and `BitNot`.
    pub open spec fn unary(self, code: ByteCode) -> (VmModel, Outcome) {
        match code {
            ByteCode::Pos { dst, src } => if self.holds(src) {
                self.put(self.next(), dst, self.read(src))
            } else {
                self.fault()
            },
            ByteCode::Neg { dst, src } => if !self.holds(src) {
                self.fault()
            } else {
                match self.read(src) {
                    Value::Int(i) => if i == i64::MIN {
                        self.fault()
                    } else {
                        self.put(self.next(), dst, Value::Int((-i) as i64))
                    },
                    Value::Float(b) => self.put(self.next(), dst, Value::Float(b ^ SIGN_BIT)),
                    _ => self.fault(),
                }
            },
            ByteCode::Not { dst, src } => if !self.holds(src) {
                self.fault()
            } else {
                match self.read(src) {
                    Value::Bool(b) => self.put(self.next(), dst, Value::Bool(!b)),
                    _ => self.fault(),
                }
            },
            ByteCode::BitNot { dst, src } => if !self.holds(src) {
                self.fault()
            } else {
                match self.read(src) {
                    Value::Int(i) => self.put(self.next(), dst, Value::Int(!i)),
                    _ => self.fault(),
                }
            },
            _ => self.fault(),
        }
    }

    /// `Add`, `Sub`, `Mul` and `Div`.
    pub open spec fn arith(self, op: ArithOp, dst: Loc, left: Loc, right: Loc) -> (VmModel, Outcome) {
        if !self.holds(left) || !self.holds(right) {
            self.fault()
        } else {
            let a = self.read(left);
            let b = self.read(right);
            match (a, b) {
                (Value::Int(x), Value::Int(y)) => match int_arith(op, x, y) {
                    Some(r) => self.put(self.next(), dst, Value::Int(r)),
                    None => self.fault(),
                },
                _ => if is_number(a) && is_number(b) {
                    self.ask(FloatRequest { op: FloatOp::Arith(op), left: a, right: b, dst })
                } else {
                    self.fault()
                },
            }
        }
    }

    /// `Mod`, the bitwise operations and the shifts, on two integers.
    pub open spec fn int_binary(self, code: ByteCode) -> (VmModel, Outcome) {
        match code {
            ByteCode::Mod { dst, left, right } => self.int_op(dst, left, right, IntOp::Rem),
            ByteCode::BitAnd { dst, left, right } => self.int_op(dst, left, right, IntOp::And),
            ByteCode::BitOr { dst, left, right } => self.int_op(dst, left, right, IntOp::Or),
            ByteCode::BitXor { dst, left, right } => self.int_op(dst, left, right, IntOp::Xor),
            ByteCode::Shl { dst, left, right } => self.int_op(dst, left, right, IntOp::Shl),
            ByteCode::Shr { dst, left, right } => self.int_op(dst, left, right, IntOp::Shr),
            _ => self.fault(),
        }
    }

    /// An operation on two integers.
    pub open spec fn int_op(self, dst: Loc, left: Loc, right: Loc, op: IntOp) -> (VmModel, Outcome) {
        if !self.holds(left) || !self.holds(right) {
            self.fault()
        } else {
            match (self.read(left), self.read(right)) {
                (Value::Int(a), Value::Int(b)) => match int_bits(op, a, b) {
                    Some(r) => self.put(self.next(), dst, Value::Int(r)),
                    None => self.fault(),
                },
                _ => self.fault(),
            }
        }
    }

    /// A comparison.
    pub open spec fn compare(self, op: CmpOp, dst: Loc, left: Loc, right: Loc) -> (VmModel, Outcome) {
        if !self.holds(left) || !self.holds(right) {
            self.fault()
        } else {
            let a = self.read(left);
            let b = self.read(right);
            if a is Float && b is Float {
                self.ask(FloatRequest { op: FloatOp::Compare(op), left: a, right: b, dst })
            } else {
                match compare_values(self.objects, a, b) {
                    Some(o) => self.put(self.next(), dst, Value::Bool(cmp_holds(op, o))),
                    None => self.fault(),
                }
            }
        }
    }

    /// `And` and `Or`.
    pub open spec fn logic(self, is_and: bool, dst: Loc, left: Loc, right: Loc) -> (VmModel, Outcome) {
        if !self.holds(left) || !self.holds(right) {
            self.fault()
        } else {
            match (self.read(left), self.read(right)) {
                (Value::Bool(a), Value::Bool(b)) => self.put(
                    self.next(),
                    dst,
                    Value::Bool(if is_and { a && b } else { a || b }),
                ),
                _ => self.fault(),
            }
        }
    }

    /// The state with a new heap object.
    pub open spec fn with_object(self, h: u64, o: ObjView) -> VmModel {
        VmModel { objects: self.objects.insert(h, o), ..self }
    }

    /// `NewObject`: a struct of `size` nil fields under the fresh handle
    /// `h`.
    pub open spec fn new_object(self, dst: Loc, size: u32, h: u64) -> (VmModel, Outcome) {
        if !self.holds(dst) || self.objects.dom().len() + 2 >= u32::MAX {
            self.fault()
        } else {
            let o = ObjView {
                mark: GcMark::White,
                data: DataView::Struct(Seq::new(size as nat, |i: int| Value::Nil)),
            };
            (self.next().with_object(h, o).write(dst, Value::Struct(GcHandle(h))), Outcome::Running)
        }
    }

    /// The elements of the object a value refers to, where it is a vector
    /// (`is_vec`) or a struct as asked, and the object exists.
    pub open spec fn elements(self, v: Value, is_vec: bool) -> Option<(u64, Seq<Value>)> {
        match v {
            Value::Vec(h) => if is_vec && self.objects.dom().contains(h.0) {
                match self.objects[h.0].data {
                    DataView::Vec(s) => Some((h.0, s)),
                    _ => None,
                }
            } else {
                None
            },
            Value::Struct(h) => if !is_vec && self.objects.dom().contains(h.0) {
                match self.objects[h.0].data {
                    DataView::Struct(s) => Some((h.0, s)),
                    _ => None,
                }
            } else {
                None
            },
            _ => None,
        }
    }

    /// The state with element `i` of an object's elements changed.
    pub open spec fn set_element(self, h: u64, elems: Seq<Value>, i: int, v: Value, is_vec: bool) -> VmModel {
        let data = if is_vec {
            DataView::Vec(elems.update(i, v))
        } else {
            DataView::Struct(elems.update(i, v))
        };
        self.with_object(h, ObjView { mark: self.objects[h].mark, data })
    }

    /// Reads element `i` of what `obj` refers to into `dst`.
    pub open spec fn get_element(self, dst: Loc, obj: Loc, i: int, is_vec: bool) -> (VmModel, Outcome) {
        match self.elements(self.read(obj), is_vec) {
            Some((h, elems)) => if 0 <= i < elems.len() {
                self.put(self.next(), dst, elems[i])
            } else {
                self.fault()
            },
            None => self.fault(),
        }
    }

    /// Stores `src` as element `i` of what `obj` refers to.
    pub open spec fn put_element(self, obj: Loc, i: int, src: Loc, is_vec: bool) -> (VmModel, Outcome) {
        match self.elements(self.read(obj), is_vec) {
            Some((h, elems)) => if 0 <= i < elems.len() {
                (self.next().set_element(h, elems, i, self.read(src), is_vec), Outcome::Running)
            } else {
                self.fault()
            },
            None => self.fault(),
        }
    }

    /// `Index`, `SetIndex`, `Member` and `SetMember`.
    pub open spec fn access(self, code: ByteCode) -> (VmModel, Outcome) {
        match code {
            ByteCode::Index { dst, idx, src } => if !self.holds(src) || !self.holds(idx) {
                self.fault()
            } else {
                match self.read(idx) {
                    Value::Int(i) => self.get_element(dst, src, i as int, true),
                    _ => self.fault(),
                }
            },
            ByteCode::SetIndex { dst, idx, src } => if !self.holds(src) || !self.holds(dst)
                || !self.holds(idx) {
                self.fault()
            } else {
                match self.read(idx) {
                    Value::Int(i) => self.put_element(dst, i as int, src, true),
                    _ => self.fault(),
                }
            },
            ByteCode::Member { dst, offset, src } => if !self.holds(src) {
                self.fault()
            } else {
                self.get_element(dst, src, offset as int, false)
            },
            ByteCode::SetMember { dst, offset, src } => if !self.holds(src) || !self.holds(dst) {
                self.fault()
            } else {
                self.put_element(dst, offset as int, src, false)
            },
            _ => self.fault(),
        }
    }

    /// Enters function `f` of the package, whose value goes to `dst` of the
    /// caller when it returns.
    pub open spec fn call(self, pkg: &Package, dst: Loc, func: Loc) -> (VmModel, Outcome) {
        if !self.holds(func) {
            self.fault()
        } else {
            match self.read(func) {
                Value::Fn(f) => if f < pkg.functions@.len() {
                    match pkg.functions@[f as int] {
                        Function::Custom { local_var_cnt, temp_var_cnt, .. } => {
                            let frame = CallFrame {
                                func: self.func as usize,
                                pc: (self.pc + 1) as usize,
                                local_offset: self.local_offset as usize,
                                temp_offset: self.temp_offset as usize,
                                dst,
                            };
                            (
                                VmModel {
                                    frames: self.frames.push(frame),
                                    ..self.enter(f as int, local_var_cnt, temp_var_cnt)
                                },
                                Outcome::Running,
                            )
                        },
                        _ => self.fault(),
                    }
                } else {
                    self.fault()
                },
                _ => self.fault(),
            }
        }
    }

    /// Starts function `f` with fresh nil locals and temporaries.
    pub open spec fn enter(self, f: int, locals: u32, temps: u32) -> VmModel {
        VmModel {
            local_offset: self.local.len() as int,
            temp_offset: self.temp.len() as int,
            local: self.local + Seq::new(locals as nat, |i: int| Value::Nil),
            temp: self.temp + Seq::new(temps as nat, |i: int| Value::Nil),
            func: f,
            pc: 0,
            ..self
        }
    }

    /// Returns `val` from the running function; where `pushed`, the value
    /// is also left on the stack.
    pub open spec fn ret(self, val: Value, pushed: bool) -> (VmModel, Outcome) {
        let done = VmModel {
            stack: if pushed { self.stack.push(val) } else { self.stack },
            local: truncated(self.local, self.local_offset),
            temp: truncated(self.temp, self.temp_offset),
            ..self
        };
        if self.frames.len() == 0 {
            (done, Outcome::Finished(val))
        } else {
            let f = self.frames.last();
            let back = VmModel {
                frames: self.frames.drop_last(),
                func: f.func as int,
                pc: f.pc as int,
                local_offset: f.local_offset as int,
                temp_offset: f.temp_offset as int,
                ..done
            };
            if back.holds(f.dst) {
                (back.write(f.dst, val), Outcome::Running)
            } else {
                self.fault()
            }
        }
    }

    /// What is at the current instruction.
    pub open spec fn fetch(self, pkg: &Package) -> Fetched {
        if 0 <= self.func < pkg.functions@.len() {
            match pkg.functions@[self.func] {
                Function::Custom { codes, .. } => if 0 <= self.pc < codes@.len() {
                    Fetched::Code(codes@[self.pc])
                } else {
                    Fetched::End
                },
                _ => Fetched::Bad,
            }
        } else {
            Fetched::Bad
        }
    }

    /// Carries out one instruction; `h` is the handle a new object gets.
    pub open spec fn exec(self, pkg: &Package, code: ByteCode, h: u64) -> (VmModel, Outcome) {
        match code {
            ByteCode::Pos { .. } | ByteCode::Neg { .. } | ByteCode::Not { .. }
            | ByteCode::BitNot { .. } => self.unary(code),
            ByteCode::Add { dst, left, right } => self.arith(ArithOp::Add, dst, left, right),
            ByteCode::Sub { dst, left, right } => self.arith(ArithOp::Sub, dst, left, right),
            ByteCode::Mul { dst, left, right } => self.arith(ArithOp::Mul, dst, left, right),
            ByteCode::Div { dst, left, right } => self.arith(ArithOp::Div, dst, left, right),
            ByteCode::Mod { .. } | ByteCode::BitAnd { .. } | ByteCode::BitOr { .. }
            | ByteCode::BitXor { .. } | ByteCode::Shl { .. } | ByteCode::Shr {
                ..
            } => self.int_binary(code),
            ByteCode::Eq { dst, left, right } => self.compare(CmpOp::Eq, dst, left, right),
            ByteCode::Ne { dst, left, right } => self.compare(CmpOp::Ne, dst, left, right),
            ByteCode::Lt { dst, left, right } => self.compare(CmpOp::Lt, dst, left, right),
            ByteCode::Le { dst, left, right } => self.compare(CmpOp::Le, dst, left, right),
            ByteCode::Gt { dst, left, right } => self.compare(CmpOp::Gt, dst, left, right),
            ByteCode::Ge { dst, left, right } => self.compare(CmpOp::Ge, dst, left, right),
            ByteCode::And { dst, left, right } => self.logic(true, dst, left, right),
            ByteCode::Or { dst, left, right } => self.logic(false, dst, left, right),
            ByteCode::GetParam { dst } => if self.stack.len() == 0 {
                self.fault()
            } else {
                self.put(
                    VmModel { stack: self.stack.drop_last(), ..self.next() },
                    dst,
                    self.stack.last(),
                )
            },
            ByteCode::Param { src } => if self.holds(src) {
                (VmModel { stack: self.stack.push(self.read(src)), ..self.next() }, Outcome::Running)
            } else {
                self.fault()
            },
            ByteCode::NewObject { dst, size } => self.new_object(dst, size, h),
            ByteCode::Call { dst, func, .. } => self.call(pkg, dst, func),
            ByteCode::Load { from, to } => if self.holds(from) {
                self.put(self.next(), to, self.read(from))
            } else {
                self.fault()
            },
            ByteCode::Br { cond, then_offset, else_offset } => if self.holds(cond) {
                match self.read(cond) {
                    Value::Bool(b) => (
                        self.goto(if b { then_offset as int } else { else_offset as int }),
                        Outcome::Running,
                    ),
                    _ => self.fault(),
                }
            } else {
                self.fault()
            },
            ByteCode::Jump { offset } => (self.goto(offset as int), Outcome::Running),
            ByteCode::Index { .. } | ByteCode::SetIndex { .. } | ByteCode::Member { .. }
            | ByteCode::SetMember { .. } => self.access(code),
            ByteCode::Return { src } => match src {
                Some(l) => if self.holds(l) {
                    self.ret(self.read(l), true)
                } else {
                    self.fault()
                },
                None => self.ret(Value::Nil, false),
            },
        }
    }

    /// One step of the machine; `h` is the handle a new object gets.
    pub open spec fn step(self, pkg: &Package, h: u64) -> (VmModel, Outcome) {
        match self.fetch(pkg) {
            Fetched::Code(code) => self.exec(pkg, code, h),
            Fetched::End => self.ret(Value::Nil, false),
            Fetched::Bad => self.fault(),
        }
    }

    /// Whether the current instruction stores a new object.
    pub open spec fn allocates(self, pkg: &Package) -> bool {
        match self.fetch(pkg) {
            Fetched::Code(ByteCode::NewObject { dst, size }) => self.new_object(dst, size, 0).1
                == Outcome::Running,
            _ => false,
        }
    }
}

/// The result of an operation on two integers; `None` where `%` divides by
/// zero or overflows, or a shift is by less than 0 or more than 63 bits.
pub open spec fn int_bits(op: IntOp, a: i64, b: i64) -> Option<i64> {
    match op {
        IntOp::Rem => int_rem(a, b),
        IntOp::And => Some(a & b),
        IntOp::Or => Some(a | b),
        IntOp::Xor => Some(a ^ b),
        IntOp::Shl => if 0 <= b < 64 { Some(a << (b as u32)) } else { None },
        IntOp::Shr => if 0 <= b < 64 { Some(a >> (b as u32)) } else { None },
    }
}

/// Division rounding toward zero.
fn trunc_div_exec(a: i64, b: i64) -> (q: i128)
    requires
        b != 0,
    ensures
        q == trunc_div(a as int, b as int),
{
    let aa: i128 = if a < 0 { -(a as i128) } else { a as i128 };
    let bb: i128 = if b < 0 { -(b as i128) } else { b as i128 };
    let q = aa / bb;
    assert(0 <= q <= aa) by (nonlinear_arith)
        requires
            q == aa / bb,
            0 <= aa,
            0 < bb,
    ;
    if (a < 0) != (b < 0) {
        -q
    } else {
        q
    }
}

/// The remainder of division rounding toward zero.
fn trunc_rem_exec(a: i64, b: i64) -> (r: i128)
    requires
        b != 0,
    ensures
        r == trunc_rem(a as int, b as int),
{
    let aa: i128 = if a < 0 { -(a as i128) } else { a as i128 };
    let bb: i128 = if b < 0 { -(b as i128) } else { b as i128 };
    let r = aa % bb;
    if a < 0 {
        -r
    } else {
        r
    }
}

/// Integer `+`, `-`, `*` and `/`, with `None` on overflow or division by
/// zero.
fn int_arith_exec(op: ArithOp, a: i64, b: i64) -> (r: Option<i64>)
    ensures
        r == int_arith(op, a, b),
{
    match op {
        ArithOp::Add => a.checked_add(b),
        ArithOp::Sub => a.checked_sub(b),
        ArithOp::Mul => a.checked_mul(b),
        ArithOp::Div => if b == 0 {
            None
        } else {
            let q = trunc_div_exec(a, b);
            if i64::MIN as i128 <= q && q <= i64::MAX as i128 {
                Some(q as i64)
            } else {
                None
            }
        },
    }
}

/// `%`, the bitwise operations and the shifts on two integers.
fn int_bits_exec(op: IntOp, a: i64, b: i64) -> (r: Option<i64>)
    ensures
        r == int_bits(op, a, b),
{
    match op {
        IntOp::Rem => if b == 0 || (a == i64::MIN && b == -1) {
            None
        } else {
            Some(trunc_rem_exec(a, b) as i64)
        },
        IntOp::And => Some(a & b),
        IntOp::Or => Some(a | b),
        IntOp::Xor => Some(a ^ b),
        IntOp::Shl => if 0 <= b && b < 64 {
            Some(a << (b as u32))
        } else {
            None
        },
        IntOp::Shr => if 0 <= b && b < 64 {
            Some(a >> (b as u32))
        } else {
            None
        },
    }
}

/// Whether a comparison holds of an ordering.
pub fn cmp_holds_exec(op: CmpOp, o: Option<Order>) -> (b: bool)
    ensures
        b == cmp_holds(op, o),
{
    match o {
        None => matches!(op, CmpOp::Ne),
        Some(o) => match op {
            CmpOp::Eq => o == Order::Equal,
            CmpOp::Ne => o != Order::Equal,
            CmpOp::Lt => o == Order::Less,
            CmpOp::Le => o != Order::Greater,
            CmpOp::Gt => o == Order::Greater,
            CmpOp::Ge => o != Order::Less,
        },
    }
}

/// The order of two integers.
fn order_of(a: i64, b: i64) -> (o: Order)
    ensures
        o == int_order(a as int, b as int),
{
    if a < b {
        Order::Less
    } else if a == b {
        Order::Equal
    } else {
        Order::Greater
    }
}

/// The lexicographic order of two strings.
fn str_order(a: &str, b: &str) -> (o: Order)
    ensures
        o == seq_order(a@, b@),
{
    let n = a.unicode_len();
    let m = b.unicode_len();
    let mut i: usize = 0;
    assert(a@.skip(0) =~= a@ && b@.skip(0) =~= b@);
    while i < n && i < m
        invariant
            n == a@.len(),
            m == b@.len(),
            i <= n,
            i <= m,
            seq_order(a@, b@) == seq_order(a@.skip(i as int), b@.skip(i as int)),
        decreases n - i,
    {
        let x = a.get_char(i);
        let y = b.get_char(i);
        assert(a@.skip(i as int)[0] == x && b@.skip(i as int)[0] == y);
        if x != y {
            return order_of(x as i64, y as i64);
        }
        assert(a@.skip(i as int).drop_first() =~= a@.skip(i + 1));
        assert(b@.skip(i as int).drop_first() =~= b@.skip(i + 1));
        i = i + 1;
    }
    if i == n && i == m {
        Order::Equal
    } else if i == n {
        Order::Less
    } else {
        Order::Greater
    }
}

/// The order of two handles: by slot, then by version.
fn handle_order_exec(a: GcHandle, b: GcHandle) -> (o: Order)
    ensures
        o == handle_order(a, b),
{
    let sa = a.0 % 0x1_0000_0000;
    let sb = b.0 % 0x1_0000_0000;
    if sa != sb {
        if sa < sb {
            Order::Less
        } else {
            Order::Greater
        }
    } else {
        let va = a.0 / 0x1_0000_0000;
        let vb = b.0 / 0x1_0000_0000;
        if va < vb {
            Order::Less
        } else if va == vb {
            Order::Equal
        } else {
            Order::Greater
        }
    }
}

/// The value the host's answer stores: the float it computed, or whether
/// the comparison holds of the order it found; `None` where the answer does
/// not fit the request.
pub open spec fn float_result(req: FloatRequest, ans: FloatAnswer) -> Option<Value> {
    match (req.op, ans) {
        (FloatOp::Arith(_), FloatAnswer::Number(b)) => Some(Value::Float(b)),
        (FloatOp::Compare(c), FloatAnswer::Order(o)) => Some(Value::Bool(cmp_holds(c, o))),
        _ => None,
    }
}

/// The value a constant of the package becomes, where the machine can make
/// it without the host: a float constant needs the host to read its text.
pub open spec fn const_value(c: ConstValue) -> Option<Value> {
    match c {
        ConstValue::Nil => Some(Value::Nil),
        ConstValue::Bool(b) => Some(Value::Bool(b)),
        ConstValue::Int(i) => Some(Value::Int(i)),
        _ => None,
    }
}

/// A step that cannot be carried out leaves the machine exactly as it was.
pub proof fn law_fault_changes_nothing(m: VmModel, pkg: &Package, h: u64)
    ensures
        m.step(pkg, h).1 == Outcome::Fault ==> m.step(pkg, h).0 == m,
{
}

/// Returning from a call restores the caller: its function, the
/// instruction after the call, its frame, its locals and temporaries as
/// they were before the call, and the returned value goes to the call's
/// destination (or the return faults, where that location holds nothing).
pub proof fn law_return_restores_caller(
    m: VmModel,
    pkg: &Package,
    dst: Loc,
    func: Loc,
    v: Value,
    pushed: bool,
)
    requires
        m.call(pkg, dst, func).1 == Outcome::Running,
        0 <= m.func <= usize::MAX,
        0 <= m.pc < usize::MAX,
        0 <= m.local_offset <= usize::MAX,
        0 <= m.temp_offset <= usize::MAX,
    ensures
        ({
            let callee = m.call(pkg, dst, func).0;
            let back = VmModel {
                stack: if pushed {
                    m.stack.push(v)
                } else {
                    m.stack
                },
                ..m.next()
            };
            callee.ret(v, pushed) == (if m.holds(dst) {
                (back.write(dst, v), Outcome::Running)
            } else {
                (callee, Outcome::Fault)
            })
        }),
{
    let callee = m.call(pkg, dst, func).0;
    assert(truncated(callee.local, callee.local_offset) =~= m.local);
    assert(truncated(callee.temp, callee.temp_offset) =~= m.temp);
    assert(callee.frames.drop_last() =~= m.frames);
}

/// A step never removes an object from the heap: what the heap held before
/// it still holds, with its mark kept.
#[verifier::rlimit(50)]
pub proof fn law_heap_only_grows(m: VmModel, pkg: &Package, h: u64)
    requires
        !m.objects.dom().contains(h),
    ensures
        forall|k: u64| #[trigger] m.objects.dom().contains(k) ==> m.step(pkg, h).0.objects.dom().contains(k)
            && m.step(pkg, h).0.objects[k].mark == m.objects[k].mark,
{
    match m.fetch(pkg) {
        Fetched::Code(code) => match code {
            ByteCode::NewObject { dst, size } => {},
            ByteCode::Index { .. } | ByteCode::SetIndex { .. } | ByteCode::Member { .. }
            | ByteCode::SetMember { .. } => {
                lemma_access_keeps_objects(m, code);
            },
            ByteCode::Call { dst, func, .. } => {
                assert(m.call(pkg, dst, func).0.objects == m.objects);
            },
            ByteCode::Return { src } => {},
            _ => {
                lemma_plain_keeps_objects(m, pkg, code, h);
            },
        },
        _ => {},
    }
}

/// Element access keeps every object and its mark.
proof fn lemma_access_keeps_objects(m: VmModel, code: ByteCode)
    ensures
        forall|k: u64| #[trigger] m.objects.dom().contains(k) ==> m.access(code).0.objects.dom().contains(k)
            && m.access(code).0.objects[k].mark == m.objects[k].mark,
{
}

/// The instructions that do not allocate, access elements, call or return
/// leave the heap as it was.
#[verifier::rlimit(50)]
proof fn lemma_plain_keeps_objects(m: VmModel, pkg: &Package, code: ByteCode, h: u64)
    requires
        !(code is NewObject || code is Index || code is SetIndex || code is Member || code is SetMember
            || code is Call || code is Return),
    ensures
        m.exec(pkg, code, h).0.objects == m.objects,
{
}

/// The virtual machine: its memory, the frame of the running function, the
/// frames of its callers, and the instruction it is at.
pub struct Vm {
    mem: Mem,
    local_offset: usize,
    temp_offset: usize,
    frames: Vec<CallFrame>,
    func: usize,
    pc: usize,
}

impl View for Vm {
    type V = VmModel;

    closed spec fn view(&self) -> VmModel {
        VmModel {
            stack: self.mem.stack@,
            local: self.mem.local@,
            temp: self.mem.temp@,
            global: self.mem.global@,
            consts: self.mem.consts@,
            objects: self.mem.heap_view(),
            local_offset: self.local_offset as int,
            temp_offset: self.temp_offset as int,
            frames: self.frames@,
            func: self.func as int,
            pc: self.pc as int,
        }
    }
}

impl Vm {
    /// The heap is well formed.
    pub closed spec fn wf(&self) -> bool {
        self.mem.wf()
    }

    /// The heap holds finitely many objects.
    pub proof fn wf_finite(&self)
        requires
            self.wf(),
        ensures
            self@.objects.dom().finite(),
    {
        assert(self@.objects.dom() =~= self.mem.objects().dom());
    }

    /// A machine with empty memory, at the first instruction of function 0.
    pub fn new() -> (vm: Vm)
        ensures
            vm.wf(),
            vm@.stack.len() == 0,
            vm@.local.len() == 0,
            vm@.temp.len() == 0,
            vm@.global.len() == 0,
            vm@.consts.len() == 0,
            vm@.objects.dom() =~= Set::<u64>::empty(),
            vm@.local_offset == 0,
            vm@.temp_offset == 0,
            vm@.frames.len() == 0,
            vm@.func == 0,
            vm@.pc == 0,
    {
        Vm {
            mem: Mem::new(),
            local_offset: 0,
            temp_offset: 0,
            frames: Vec::new(),
            func: 0,
            pc: 0,
        }
    }

    /// The area and absolute index a location reaches; `None` where the
    /// index does not fit a `usize`.
    fn slot_of(&self, l: Loc) -> (r: Option<(Area, usize)>)
        ensures
            match r {
                Some((a, i)) => a == l.area() && i == self@.slot(l),
                None => self@.slot(l) > usize::MAX && !self@.holds(l),
            },
    {
        let (area, idx) = l.decode();
        match area {
            Area::Local => match self.local_offset.checked_add(idx) {
                Some(i) => Some((area, i)),
                None => {
                    let _n = self.mem.local.len();
                    None
                },
            },
            Area::Temp => match self.temp_offset.checked_add(idx) {
                Some(i) => Some((area, i)),
                None => {
                    let _n = self.mem.temp.len();
                    None
                },
            },
            _ => Some((area, idx)),
        }
    }

    /// The value at a location, or `None` where it holds none.
    pub fn get_var(&self, l: Loc) -> (r: Option<Value>)
        ensures
            r == (if self@.holds(l) {
                Some(self@.read(l))
            } else {
                None
            }),
    {
        match self.slot_of(l) {
            None => None,
            Some((area, i)) => match area {
                Area::Local => if i < self.mem.local.len() {
                    Some(self.mem.local[i])
                } else {
                    None
                },
                Area::Temp => if i < self.mem.temp.len() {
                    Some(self.mem.temp[i])
                } else {
                    None
                },
                Area::Global => if i < self.mem.global.len() {
                    Some(self.mem.global[i])
                } else {
                    None
                },
                Area::Const => if i < self.mem.consts.len() {
                    Some(self.mem.consts[i])
                } else {
                    None
                },
            },
        }
    }

    /// Whether a location holds a value.
    pub fn holds(&self, l: Loc) -> (b: bool)
        ensures
            b == self@.holds(l),
    {
        self.get_var(l).is_some()
    }

    /// Stores a value at a location that holds one.
    pub fn set_var(&mut self, l: Loc, v: Value)
        requires
            old(self)@.holds(l),
        ensures
            final(self)@ == old(self)@.write(l, v),
            final(self).wf() == old(self).wf(),
    {
        match self.slot_of(l) {
            None => {},
            Some((area, i)) => match area {
                Area::Local => {
                    self.mem.local.set(i, v);
                    assert(self@ =~= old(self)@.write(l, v));
                },
                Area::Temp => {
                    self.mem.temp.set(i, v);
                    assert(self@ =~= old(self)@.write(l, v));
                },
                Area::Global => {
                    self.mem.global.set(i, v);
                    assert(self@ =~= old(self)@.write(l, v));
                },
                Area::Const => {
                    self.mem.consts.set(i, v);
                    assert(self@ =~= old(self)@.write(l, v));
                },
            },
        }
    }

    /// Moves past the current instruction and stores a value, or faults
    /// where the location holds none.
    fn put(&mut self, dst: Loc, v: Value) -> (out: Outcome)
        requires
            old(self)@.pc < usize::MAX,
        ensures
            (final(self)@, out) == old(self)@.put(old(self)@.next(), dst, v),
            final(self).wf() == old(self).wf(),
    {
        if self.holds(dst) {
            self.pc = self.pc + 1;
            self.set_var(dst, v);
            Outcome::Running
        } else {
            Outcome::Fault
        }
    }

    /// Moves past the current instruction and hands float work to the host,
    /// or faults where its destination holds no value.
    fn ask(&mut self, req: FloatRequest) -> (out: Outcome)
        requires
            old(self)@.pc < usize::MAX,
        ensures
            (final(self)@, out) == old(self)@.ask(req),
            final(self).wf() == old(self).wf(),
    {
        if self.holds(req.dst) {
            self.pc = self.pc + 1;
            Outcome::Float(req)
        } else {
            Outcome::Fault
        }
    }

    /// `Pos`, `Neg`, `Not` and `BitNot`.
    fn unary(&mut self, code: &ByteCode) -> (out: Outcome)
        requires
            old(self)@.pc < usize::MAX,
        ensures
            (final(self)@, out) == old(self)@.unary(*code),
            final(self).wf() == old(self).wf(),
    {
        match code {
            ByteCode::Pos { dst, src } => match self.get_var(*src) {
                Some(v) => self.put(*dst, v),
                None => Outcome::Fault,
            },
            ByteCode::Neg { dst, src } => match self.get_var(*src) {
                Some(Value::Int(i)) => if i == i64::MIN {
                    Outcome::Fault
                } else {
                    self.put(*dst, Value::Int(-i))
                },
                Some(Value::Float(b)) => self.put(*dst, Value::Float(b ^ SIGN_BIT)),
                _ => Outcome::Fault,
            },
            ByteCode::Not { dst, src } => match self.get_var(*src) {
                Some(Value::Bool(b)) => self.put(*dst, Value::Bool(!b)),
                _ => Outcome::Fault,
            },
            ByteCode::BitNot { dst, src } => match self.get_var(*src) {
                Some(Value::Int(i)) => self.put(*dst, Value::Int(!i)),
                _ => Outcome::Fault,
            },
            _ => Outcome::Fault,
        }
    }

    /// `Add`, `Sub`, `Mul` and `Div`.
    fn arith(&mut self, op: ArithOp, dst: Loc, left: Loc, right: Loc) -> (out: Outcome)
        requires
            old(self)@.pc < usize::MAX,
        ensures
            (final(self)@, out) == old(self)@.arith(op, dst, left, right),
            final(self).wf() == old(self).wf(),
    {
        let a = match self.get_var(left) {
            Some(v) => v,
            None => return Outcome::Fault,
        };
        let b = match self.get_var(right) {
            Some(v) => v,
            None => return Outcome::Fault,
        };
        match (a, b) {
            (Value::Int(x), Value::Int(y)) => match int_arith_exec(op, x, y) {
                Some(r) => self.put(dst, Value::Int(r)),
                None => Outcome::Fault,
            },
            _ => if matches!(a, Value::Int(_) | Value::Float(_)) && matches!(
                b,
                Value::Int(_) | Value::Float(_)
            ) {
                self.ask(FloatRequest { op: FloatOp::Arith(op), left: a, right: b, dst })
            } else {
                Outcome::Fault
            },
        }
    }

    /// `Mod`, the bitwise operations and the shifts.
    fn int_binary(&mut self, code: &ByteCode) -> (out: Outcome)
        requires
            old(self)@.pc < usize::MAX,
        ensures
            (final(self)@, out) == old(self)@.int_binary(*code),
            final(self).wf() == old(self).wf(),
    {
        match code {
            ByteCode::Mod { dst, left, right } => self.int_op(*dst, *left, *right, IntOp::Rem),
            ByteCode::BitAnd { dst, left, right } => self.int_op(*dst, *left, *right, IntOp::And),
            ByteCode::BitOr { dst, left, right } => self.int_op(*dst, *left, *right, IntOp::Or),
            ByteCode::BitXor { dst, left, right } => self.int_op(*dst, *left, *right, IntOp::Xor),
            ByteCode::Shl { dst, left, right } => self.int_op(*dst, *left, *right, IntOp::Shl),
            ByteCode::Shr { dst, left, right } => self.int_op(*dst, *left, *right, IntOp::Shr),
            _ => Outcome::Fault,
        }
    }

    /// An operation on two integers.
    fn int_op(&mut self, dst: Loc, left: Loc, right: Loc, op: IntOp) -> (out: Outcome)
        requires
            old(self)@.pc < usize::MAX,
        ensures
            (final(self)@, out) == old(self)@.int_op(dst, left, right, op),
            final(self).wf() == old(self).wf(),
    {
        match (self.get_var(left), self.get_var(right)) {
            (Some(Value::Int(a)), Some(Value::Int(b))) => match int_bits_exec(op, a, b) {
                Some(r) => self.put(dst, Value::Int(r)),
                None => Outcome::Fault,
            },
            _ => Outcome::Fault,
        }
    }

    /// How two values that are not both floats compare; `None` where a
    /// string's object is missing.
    fn compare_values(&self, a: Value, b: Value) -> (r: Option<Option<Order>>)
        requires
            self.wf(),
        ensures
            r == compare_values(self@.objects, a, b),
    {
        match (a, b) {
            (Value::Nil, Value::Nil) => Some(Some(Order::Equal)),
            (Value::Bool(x), Value::Bool(y)) => Some(
                Some(order_of(if x { 1 } else { 0 }, if y { 1 } else { 0 })),
            ),
            (Value::Int(x), Value::Int(y)) => Some(Some(order_of(x, y))),
            (Value::String(x), Value::String(y)) => {
                if x == y {
                    return Some(Some(Order::Equal));
                }
                if !self.mem.contains(x) || !self.mem.contains(y) {
                    return None;
                }
                let dx = self.mem.get(x);
                let dy = self.mem.get(y);
                proof {
                    assert(self@.objects[x.0] == obj_view(self.mem.objects()[x.0]));
                    assert(self@.objects[y.0] == obj_view(self.mem.objects()[y.0]));
                }
                match (dx, dy) {
                    (GcData::String(s), GcData::String(t)) => Some(
                        Some(str_order(s.as_str(), t.as_str())),
                    ),
                    _ => Some(None),
                }
            },
            (Value::Struct(x), Value::Struct(y)) => Some(Some(handle_order_exec(x, y))),
            (Value::Vec(x), Value::Vec(y)) => Some(Some(handle_order_exec(x, y))),
            (Value::Fn(x), Value::Fn(y)) => Some(Some(order_of(x as i64, y as i64))),
            _ => Some(None),
        }
    }

    /// A comparison.
    fn compare(&mut self, op: CmpOp, dst: Loc, left: Loc, right: Loc) -> (out: Outcome)
        requires
            old(self).wf(),
            old(self)@.pc < usize::MAX,
        ensures
            (final(self)@, out) == old(self)@.compare(op, dst, left, right),
            final(self).wf(),
    {
        let a = match self.get_var(left) {
            Some(v) => v,
            None => return Outcome::Fault,
        };
        let b = match self.get_var(right) {
            Some(v) => v,
            None => return Outcome::Fault,
        };
        if matches!(a, Value::Float(_)) && matches!(b, Value::Float(_)) {
            return self.ask(FloatRequest { op: FloatOp::Compare(op), left: a, right: b, dst });
        }
        match self.compare_values(a, b) {
            Some(o) => self.put(dst, Value::Bool(cmp_holds_exec(op, o))),
            None => Outcome::Fault,
        }
    }

    /// `And` and `Or`.
    fn logic(&mut self, is_and: bool, dst: Loc, left: Loc, right: Loc) -> (out: Outcome)
        requires
            old(self)@.pc < usize::MAX,
        ensures
            (final(self)@, out) == old(self)@.logic(is_and, dst, left, right),
            final(self).wf() == old(self).wf(),
    {
        match (self.get_var(left), self.get_var(right)) {
            (Some(Value::Bool(a)), Some(Value::Bool(b))) => self.put(
                dst,
                Value::Bool(if is_and { a && b } else { a || b }),
            ),
            _ => Outcome::Fault,
        }
    }


    /// `NewObject`: stores a struct of nil fields on the heap.
    fn new_object(&mut self, dst: Loc, size: u32) -> (out: Outcome)
        requires
            old(self).wf(),
            old(self)@.pc < usize::MAX,
        ensures
            final(self).wf(),
            old(self)@.new_object(dst, size, 0).1 != Outcome::Running ==> (final(self)@, out)
                == old(self)@.new_object(dst, size, 0),
            old(self)@.new_object(dst, size, 0).1 == Outcome::Running ==> exists|h: u64|
                !old(self)@.objects.dom().contains(h) && (final(self)@, out) == old(
                    self,
                )@.new_object(dst, size, h),
    {
        proof {
            self.wf_finite();
        }
        if !self.holds(dst) {
            return Outcome::Fault;
        }
        let n = self.mem.object_count();
        proof {
            assert(self@.objects.dom() =~= self.mem.objects().dom());
        }
        if n as u64 >= u32::MAX as u64 - 2 {
            return Outcome::Fault;
        }
        let mut fields: Vec<Value> = Vec::new();
        let mut i: u32 = 0;
        while i < size
            invariant
                i <= size,
                fields@ =~= Seq::new(i as nat, |k: int| Value::Nil),
            decreases size - i,
        {
            fields.push(Value::Nil);
            i = i + 1;
        }
        let ghost before = self@;
        let h = self.mem.allocate(GcData::Struct(fields));
        proof {
            assert(self.mem.heap_view() =~= before.objects.insert(
                h.0,
                ObjView {
                    mark: GcMark::White,
                    data: DataView::Struct(Seq::new(size as nat, |k: int| Value::Nil)),
                },
            ));
        }
        self.pc = self.pc + 1;
        self.set_var(dst, Value::Struct(h));
        proof {
            assert(!before.objects.dom().contains(h.0));
            assert((self@, Outcome::Running) == before.new_object(dst, size, h.0));
        }
        Outcome::Running
    }

    /// Element `i` of the vector (`is_vec`) or struct a value refers to.
    fn element_at(&self, target: Value, i: i64, is_vec: bool) -> (r: Option<Value>)
        requires
            self.wf(),
        ensures
            r == (match self@.elements(target, is_vec) {
                Some((h, e)) => if 0 <= i < e.len() {
                    Some(e[i as int])
                } else {
                    None
                },
                None => None,
            }),
    {
        let h = match target {
            Value::Vec(h) if is_vec => h,
            Value::Struct(h) if !is_vec => h,
            _ => return None,
        };
        if !self.mem.contains(h) {
            return None;
        }
        proof {
            assert(self@.objects[h.0] == obj_view(self.mem.objects()[h.0]));
        }
        let elems = match self.mem.get(h) {
            GcData::Vec(v) if is_vec => v,
            GcData::Struct(v) if !is_vec => v,
            _ => return None,
        };
        if i < 0 || (i as u64) >= (elems.len() as u64) {
            return None;
        }
        Some(elems[i as usize])
    }

    /// Stores `x` as element `i` of the vector (`is_vec`) or struct a value
    /// refers to; false, with nothing changed, where there is no such
    /// element.
    fn store_element(&mut self, target: Value, i: i64, x: Value, is_vec: bool) -> (ok: bool)
        requires
            old(self).wf(),
        ensures
            final(self).wf(),
            match old(self)@.elements(target, is_vec) {
                Some((h, e)) => if 0 <= i < e.len() {
                    ok && final(self)@ == old(self)@.set_element(h, e, i as int, x, is_vec)
                } else {
                    !ok && final(self)@ == old(self)@
                },
                None => !ok && final(self)@ == old(self)@,
            },
    {
        let h = match target {
            Value::Vec(h) => if is_vec {
                h
            } else {
                return false;
            },
            Value::Struct(h) => if !is_vec {
                h
            } else {
                return false;
            },
            _ => return false,
        };
        if !self.mem.contains(h) {
            return false;
        }
        proof {
            assert(self@.objects[h.0] == obj_view(self.mem.objects()[h.0]));
        }
        let found: Option<usize> = match self.mem.get(h) {
            GcData::Vec(v) => if is_vec {
                Some(v.len())
            } else {
                None
            },
            GcData::Struct(v) => if !is_vec {
                Some(v.len())
            } else {
                None
            },
            GcData::String(_) => None,
        };
        let len = match found {
            Some(n) => n,
            None => return false,
        };
        if i < 0 || (i as u64) >= (len as u64) {
            return false;
        }
        let ghost before = self@;
        let ghost mark = self.mem.objects()[h.0].mark;
        let d = self.mem.get_mut(h);
        match d {
            GcData::Vec(v) => v.set(i as usize, x),
            GcData::Struct(v) => v.set(i as usize, x),
            GcData::String(_) => {},
        }
        proof {
            let e = before.elements(target, is_vec).unwrap().1;
            let data = if is_vec {
                DataView::Vec(e.update(i as int, x))
            } else {
                DataView::Struct(e.update(i as int, x))
            };
            assert(self.mem.heap_view() =~= before.objects.insert(h.0, ObjView { mark, data }));
            assert(self@ =~= before.set_element(h.0, e, i as int, x, is_vec));
        }
        true
    }

    /// `Index`, `SetIndex`, `Member` and `SetMember`.
    fn access(&mut self, code: &ByteCode) -> (out: Outcome)
        requires
            old(self).wf(),
            old(self)@.pc < usize::MAX,
        ensures
            final(self).wf(),
            (final(self)@, out) == old(self)@.access(*code),
    {
        match code {
            ByteCode::Index { dst, idx, src } => {
                let target = match self.get_var(*src) {
                    Some(v) => v,
                    None => return Outcome::Fault,
                };
                match self.get_var(*idx) {
                    Some(Value::Int(i)) => match self.element_at(target, i, true) {
                        Some(x) => self.put(*dst, x),
                        None => Outcome::Fault,
                    },
                    _ => Outcome::Fault,
                }
            },
            ByteCode::SetIndex { dst, idx, src } => {
                let x = match self.get_var(*src) {
                    Some(v) => v,
                    None => return Outcome::Fault,
                };
                let target = match self.get_var(*dst) {
                    Some(v) => v,
                    None => return Outcome::Fault,
                };
                match self.get_var(*idx) {
                    Some(Value::Int(i)) => self.store_next(target, i, x, true),
                    _ => Outcome::Fault,
                }
            },
            ByteCode::Member { dst, offset, src } => {
                let target = match self.get_var(*src) {
                    Some(v) => v,
                    None => return Outcome::Fault,
                };
                match self.element_at(target, *offset as i64, false) {
                    Some(x) => self.put(*dst, x),
                    None => Outcome::Fault,
                }
            },
            ByteCode::SetMember { dst, offset, src } => {
                let x = match self.get_var(*src) {
                    Some(v) => v,
                    None => return Outcome::Fault,
                };
                let target = match self.get_var(*dst) {
                    Some(v) => v,
                    None => return Outcome::Fault,
                };
                self.store_next(target, *offset as i64, x, false)
            },
            _ => Outcome::Fault,
        }
    }

    /// Stores an element and moves past the instruction, or faults.
    fn store_next(&mut self, target: Value, i: i64, x: Value, is_vec: bool) -> (out: Outcome)
        requires
            old(self).wf(),
            old(self)@.pc < usize::MAX,
        ensures
            final(self).wf(),
            match old(self)@.elements(target, is_vec) {
                Some((h, e)) => if 0 <= i < e.len() {
                    out == Outcome::Running && final(self)@ == old(self)@.next().set_element(
                        h,
                        e,
                        i as int,
                        x,
                        is_vec,
                    )
                } else {
                    out == Outcome::Fault && final(self)@ == old(self)@
                },
                None => out == Outcome::Fault && final(self)@ == old(self)@,
            },
    {
        if self.store_element(target, i, x, is_vec) {
            self.pc = self.pc + 1;
            Outcome::Running
        } else {
            Outcome::Fault
        }
    }


    /// Starts function `f` with fresh nil locals and temporaries.
    fn enter(&mut self, f: usize, locals: u32, temps: u32)
        ensures
            final(self)@ == (VmModel { frames: old(self)@.frames, ..old(self)@.enter(f as int, locals, temps) }),
            final(self).wf() == old(self).wf(),
    {
        self.local_offset = self.mem.local.len();
        self.temp_offset = self.mem.temp.len();
        let ghost m0 = self@;
        let ghost heap0 = self.mem.heap;
        let mut i: u32 = 0;
        while i < locals
            invariant
                i <= locals,
                self.mem.heap == heap0,
                self@ =~= (VmModel {
                    local: m0.local + Seq::new(i as nat, |k: int| Value::Nil),
                    ..m0
                }),
            decreases locals - i,
        {
            self.mem.local.push(Value::Nil);
            i = i + 1;
        }
        let ghost m1 = self@;
        let mut j: u32 = 0;
        while j < temps
            invariant
                j <= temps,
                self.mem.heap == heap0,
                self@ =~= (VmModel { temp: m1.temp + Seq::new(j as nat, |k: int| Value::Nil), ..m1 }),
            decreases temps - j,
        {
            self.mem.temp.push(Value::Nil);
            j = j + 1;
        }
        self.func = f;
        self.pc = 0;
    }

    /// `Call`: enters the function a location holds.
    fn call(&mut self, pkg: &Package, dst: Loc, func: Loc) -> (out: Outcome)
        requires
            old(self)@.pc < usize::MAX,
        ensures
            (final(self)@, out) == old(self)@.call(pkg, dst, func),
            final(self).wf() == old(self).wf(),
    {
        let f = match self.get_var(func) {
            Some(Value::Fn(f)) => f,
            _ => return Outcome::Fault,
        };
        if f as usize >= pkg.functions.len() {
            return Outcome::Fault;
        }
        match &pkg.functions[f as usize] {
            Function::Custom { local_var_cnt, temp_var_cnt, .. } => {
                let frame = CallFrame {
                    func: self.func,
                    pc: self.pc + 1,
                    local_offset: self.local_offset,
                    temp_offset: self.temp_offset,
                    dst,
                };
                self.frames.push(frame);
                self.enter(f as usize, *local_var_cnt, *temp_var_cnt);
                Outcome::Running
            },
            Function::Native { .. } => Outcome::Fault,
        }
    }

    /// Whether `l` holds a value once the running function has returned to
    /// the frame `f`.
    fn holds_after_return(&self, f: &CallFrame, l: Loc) -> (b: bool)
        ensures
            b == (VmModel {
                local: truncated(self@.local, self@.local_offset),
                temp: truncated(self@.temp, self@.temp_offset),
                local_offset: f.local_offset as int,
                temp_offset: f.temp_offset as int,
                ..self@
            }).holds(l),
    {
        let (area, idx) = l.decode();
        match area {
            Area::Local => {
                let n = if self.local_offset <= self.mem.local.len() {
                    self.local_offset
                } else {
                    self.mem.local.len()
                };
                match f.local_offset.checked_add(idx) {
                    Some(i) => i < n,
                    None => false,
                }
            },
            Area::Temp => {
                let n = if self.temp_offset <= self.mem.temp.len() {
                    self.temp_offset
                } else {
                    self.mem.temp.len()
                };
                match f.temp_offset.checked_add(idx) {
                    Some(i) => i < n,
                    None => false,
                }
            },
            Area::Global => idx < self.mem.global.len(),
            Area::Const => idx < self.mem.consts.len(),
        }
    }

    /// Returns `val` from the running function, leaving it on the stack
    /// where `pushed`.
    fn ret(&mut self, val: Value, pushed: bool) -> (out: Outcome)
        ensures
            (final(self)@, out) == old(self)@.ret(val, pushed),
            final(self).wf() == old(self).wf(),
    {
        let nframes = self.frames.len();
        if nframes > 0 {
            let f = self.frames[nframes - 1];
            if !self.holds_after_return(&f, f.dst) {
                return Outcome::Fault;
            }
        }
        if pushed {
            self.mem.stack.push(val);
        }
        self.mem.local.truncate(self.local_offset);
        self.mem.temp.truncate(self.temp_offset);
        if nframes == 0 {
            return Outcome::Finished(val);
        }
        let f = self.frames.pop().unwrap();
        self.func = f.func;
        self.pc = f.pc;
        self.local_offset = f.local_offset;
        self.temp_offset = f.temp_offset;
        self.set_var(f.dst, val);
        Outcome::Running
    }

    /// Carries out one instruction.
    fn exec(&mut self, pkg: &Package, code: &ByteCode) -> (out: Outcome)
        requires
            old(self).wf(),
            old(self)@.pc < usize::MAX,
        ensures
            final(self).wf(),
            (*code is NewObject && old(self)@.exec(pkg, *code, 0).1 == Outcome::Running) ==> exists|
                h: u64,
            |
                !old(self)@.objects.dom().contains(h) && (final(self)@, out) == old(self)@.exec(
                    pkg,
                    *code,
                    h,
                ),
            !(*code is NewObject && old(self)@.exec(pkg, *code, 0).1 == Outcome::Running) ==> (
            final(self)@, out) == old(self)@.exec(pkg, *code, 0),
    {
        match code {
            ByteCode::Pos { .. } | ByteCode::Neg { .. } | ByteCode::Not { .. }
            | ByteCode::BitNot { .. } => self.unary(code),
            ByteCode::Add { dst, left, right } => self.arith(ArithOp::Add, *dst, *left, *right),
            ByteCode::Sub { dst, left, right } => self.arith(ArithOp::Sub, *dst, *left, *right),
            ByteCode::Mul { dst, left, right } => self.arith(ArithOp::Mul, *dst, *left, *right),
            ByteCode::Div { dst, left, right } => self.arith(ArithOp::Div, *dst, *left, *right),
            ByteCode::Mod { .. } | ByteCode::BitAnd { .. } | ByteCode::BitOr { .. }
            | ByteCode::BitXor { .. } | ByteCode::Shl { .. } | ByteCode::Shr {
                ..
            } => self.int_binary(code),
            ByteCode::Eq { dst, left, right } => self.compare(CmpOp::Eq, *dst, *left, *right),
            ByteCode::Ne { dst, left, right } => self.compare(CmpOp::Ne, *dst, *left, *right),
            ByteCode::Lt { dst, left, right } => self.compare(CmpOp::Lt, *dst, *left, *right),
            ByteCode::Le { dst, left, right } => self.compare(CmpOp::Le, *dst, *left, *right),
            ByteCode::Gt { dst, left, right } => self.compare(CmpOp::Gt, *dst, *left, *right),
            ByteCode::Ge { dst, left, right } => self.compare(CmpOp::Ge, *dst, *left, *right),
            ByteCode::And { dst, left, right } => self.logic(true, *dst, *left, *right),
            ByteCode::Or { dst, left, right } => self.logic(false, *dst, *left, *right),
            ByteCode::GetParam { dst } => {
                if self.mem.stack.len() == 0 || !self.holds(*dst) {
                    return Outcome::Fault;
                }
                let v = self.mem.stack.pop().unwrap();
                self.pc = self.pc + 1;
                self.set_var(*dst, v);
                Outcome::Running
            },
            ByteCode::Param { src } => match self.get_var(*src) {
                Some(v) => {
                    self.mem.stack.push(v);
                    self.pc = self.pc + 1;
                    Outcome::Running
                },
                None => Outcome::Fault,
            },
            ByteCode::NewObject { dst, size } => self.new_object(*dst, *size),
            ByteCode::Call { dst, func, .. } => self.call(pkg, *dst, *func),
            ByteCode::Load { from, to } => match self.get_var(*from) {
                Some(v) => self.put(*to, v),
                None => Outcome::Fault,
            },
            ByteCode::Br { cond, then_offset, else_offset } => match self.get_var(*cond) {
                Some(Value::Bool(b)) => {
                    self.pc = if b {
                        *then_offset as usize
                    } else {
                        *else_offset as usize
                    };
                    Outcome::Running
                },
                _ => Outcome::Fault,
            },
            ByteCode::Jump { offset } => {
                self.pc = *offset as usize;
                Outcome::Running
            },
            ByteCode::Index { .. } | ByteCode::SetIndex { .. } | ByteCode::Member { .. }
            | ByteCode::SetMember { .. } => self.access(code),
            ByteCode::Return { src } => match src {
                Some(l) => match self.get_var(*l) {
                    Some(v) => self.ret(v, true),
                    None => Outcome::Fault,
                },
                None => self.ret(Value::Nil, false),
            },
        }
    }

    /// Carries out the current instruction of the running function: one step
    /// of the machine as `VmModel::step` says, where a new object gets a
    /// handle the heap does not hold yet.
    pub fn step(&mut self, pkg: &Package) -> (out: Outcome)
        requires
            old(self).wf(),
        ensures
            final(self).wf(),
            old(self)@.allocates(pkg) ==> exists|h: u64|
                !old(self)@.objects.dom().contains(h) && (final(self)@, out) == old(self)@.step(
                    pkg,
                    h,
                ),
            !old(self)@.allocates(pkg) ==> (final(self)@, out) == old(self)@.step(pkg, 0),
    {
        if self.func >= pkg.functions.len() {
            return Outcome::Fault;
        }
        match &pkg.functions[self.func] {
            Function::Native { .. } => Outcome::Fault,
            Function::Custom { codes, .. } => {
                if self.pc < codes.len() {
                    let ghost code = codes@[self.pc as int];
                    let out = self.exec(pkg, &codes[self.pc]);
                    proof {
                        if old(self)@.allocates(pkg) {
                            let h = choose|h: u64|
                                !old(self)@.objects.dom().contains(h) && (self@, out) == old(
                                    self,
                                )@.exec(pkg, code, h);
                            assert(old(self)@.step(pkg, h) == old(self)@.exec(pkg, code, h));
                        }
                    }
                    out
                } else {
                    self.ret(Value::Nil, false)
                }
            },
        }
    }


    /// Starts the package's entry function with fresh locals and
    /// temporaries and no callers; false, with nothing changed, where the
    /// entry is not a function of bytecode.
    pub fn start(&mut self, pkg: &Package) -> (ok: bool)
        ensures
            final(self).wf() == old(self).wf(),
            ok == (pkg.entry_function < pkg.functions@.len()
                && pkg.functions@[pkg.entry_function as int] is Custom),
            ok ==> match pkg.functions@[pkg.entry_function as int] {
                Function::Custom { local_var_cnt, temp_var_cnt, .. } => final(self)@ == (VmModel {
                    frames: Seq::empty(),
                    ..old(self)@.enter(pkg.entry_function as int, local_var_cnt, temp_var_cnt)
                }),
                _ => false,
            },
            !ok ==> final(self)@ == old(self)@,
    {
        if pkg.entry_function >= pkg.functions.len() {
            return false;
        }
        match &pkg.functions[pkg.entry_function] {
            Function::Custom { local_var_cnt, temp_var_cnt, .. } => {
                self.frames = Vec::new();
                self.enter(pkg.entry_function, *local_var_cnt, *temp_var_cnt);
                true
            },
            Function::Native { .. } => false,
        }
    }

    /// Stores the host's answer to a float request at the request's
    /// destination; false, with nothing changed, where the answer does not
    /// fit the request or the destination holds no value.
    pub fn complete_float(&mut self, req: FloatRequest, ans: FloatAnswer) -> (ok: bool)
        ensures
            final(self).wf() == old(self).wf(),
            match float_result(req, ans) {
                Some(v) => if old(self)@.holds(req.dst) {
                    ok && final(self)@ == old(self)@.write(req.dst, v)
                } else {
                    !ok && final(self)@ == old(self)@
                },
                None => !ok && final(self)@ == old(self)@,
            },
    {
        let v = match (req.op, ans) {
            (FloatOp::Arith(_), FloatAnswer::Number(b)) => Value::Float(b),
            (FloatOp::Compare(c), FloatAnswer::Order(o)) => Value::Bool(cmp_holds_exec(c, o)),
            _ => return false,
        };
        if !self.holds(req.dst) {
            return false;
        }
        self.set_var(req.dst, v);
        true
    }

    /// Adds a constant of the package to the constant area: nil, booleans
    /// and integers as they are, a string as a new object on the heap.
    /// False, with nothing changed, for a float (the host reads its text and
    /// adds it with `push_const`) or where the heap is full.
    pub fn add_const(&mut self, val: &ConstValue) -> (ok: bool)
        requires
            old(self).wf(),
        ensures
            final(self).wf(),
            const_value(*val) matches Some(v) ==> ok && final(self)@ == (VmModel {
                consts: old(self)@.consts.push(v),
                ..old(self)@
            }),
            val is Float ==> !ok && final(self)@ == old(self)@,
            val is String ==> (ok <==> old(self)@.objects.dom().len() + 2 < u32::MAX),
            val is String && !ok ==> final(self)@ == old(self)@,
            val is String && ok ==> exists|h: u64|
                !old(self)@.objects.dom().contains(h) && final(self)@ == (VmModel {
                    consts: old(self)@.consts.push(Value::String(GcHandle(h))),
                    objects: old(self)@.objects.insert(
                        h,
                        ObjView { mark: GcMark::White, data: DataView::Str(val->String_0@) },
                    ),
                    ..old(self)@
                }),
    {
        let v = match val {
            ConstValue::Nil => Value::Nil,
            ConstValue::Bool(b) => Value::Bool(*b),
            ConstValue::Int(i) => Value::Int(*i),
            ConstValue::Float(_) => return false,
            ConstValue::String(s) => {
                proof {
                    self.wf_finite();
                    assert(self@.objects.dom() =~= self.mem.objects().dom());
                }
                let n = self.mem.object_count();
                if n as u64 >= u32::MAX as u64 - 2 {
                    return false;
                }
                let ghost before = self@;
                let h = self.mem.allocate(GcData::String(s.clone()));
                proof {
                    assert(self.mem.heap_view() =~= before.objects.insert(
                        h.0,
                        ObjView { mark: GcMark::White, data: DataView::Str(s@) },
                    ));
                }
                Value::String(h)
            },
        };
        self.mem.consts.push(v);
        true
    }

    /// Adds a value to the constant area.
    pub fn push_const(&mut self, v: Value)
        ensures
            final(self).wf() == old(self).wf(),
            final(self)@ == (VmModel { consts: old(self)@.consts.push(v), ..old(self)@ }),
    {
        self.mem.consts.push(v);
    }

    /// Sets the globals to the package's initial values.
    pub fn load_globals(&mut self, pkg: &Package)
        ensures
            final(self).wf() == old(self).wf(),
            final(self)@ == (VmModel { global: pkg.global@, ..old(self)@ }),
    {
        let mut g: Vec<Value> = Vec::new();
        let mut i: usize = 0;
        while i < pkg.global.len()
            invariant
                i <= pkg.global@.len(),
                g@ =~= pkg.global@.take(i as int),
            decreases pkg.global@.len() - i,
        {
            g.push(pkg.global[i]);
            i = i + 1;
        }
        self.mem.global = g;
    }

    /// Pushes a value on the parameter stack.
    pub fn push_stack(&mut self, value: Value)
        ensures
            final(self).wf() == old(self).wf(),
            final(self)@ == (VmModel { stack: old(self)@.stack.push(value), ..old(self)@ }),
    {
        self.mem.push_stack(value);
    }

    /// Pops the parameter stack, if it holds anything.
    pub fn pop_stack(&mut self) -> (r: Option<Value>)
        ensures
            final(self).wf() == old(self).wf(),
            old(self)@.stack.len() == 0 ==> r is None && final(self)@ == old(self)@,
            old(self)@.stack.len() > 0 ==> r == Some(old(self)@.stack.last()) && final(self)@ == (
            VmModel { stack: old(self)@.stack.drop_last(), ..old(self)@ }),
    {
        self.mem.stack.pop()
    }


    /// The number of elements of the vector a value refers to, if it
    /// refers to one.
    pub fn element_count(&self, target: Value) -> (r: Option<usize>)
        requires
            self.wf(),
        ensures
            match self@.elements(target, true) {
                Some((_, e)) => r matches Some(n) && n == e.len(),
                None => r is None,
            },
    {
        let h = match target {
            Value::Vec(h) => h,
            _ => return None,
        };
        if !self.mem.contains(h) {
            return None;
        }
        proof {
            assert(self@.objects[h.0] == obj_view(self.mem.objects()[h.0]));
        }
        match self.mem.get(h) {
            GcData::Vec(v) => Some(v.len()),
            _ => None,
        }
    }

    /// Appends `x` to the vector object `target` refers to; false, with
    /// nothing changed, where it refers to no vector object.
    pub fn push_element(&mut self, target: Value, x: Value) -> (ok: bool)
        requires
            old(self).wf(),
        ensures
            final(self).wf(),
            match old(self)@.elements(target, true) {
                Some((h, e)) => ok && final(self)@ == old(self)@.with_object(
                    h,
                    ObjView { mark: old(self)@.objects[h].mark, data: DataView::Vec(e.push(x)) },
                ),
                None => !ok && final(self)@ == old(self)@,
            },
    {
        let h = match target {
            Value::Vec(h) => h,
            _ => return false,
        };
        if !self.mem.contains(h) {
            return false;
        }
        proof {
            assert(self@.objects[h.0] == obj_view(self.mem.objects()[h.0]));
        }
        let is_vec = match self.mem.get(h) {
            GcData::Vec(_) => true,
            _ => false,
        };
        if !is_vec {
            return false;
        }
        let ghost before = self@;
        let ghost mark = self.mem.objects()[h.0].mark;
        let d = self.mem.get_mut(h);
        match d {
            GcData::Vec(v) => v.push(x),
            _ => {},
        }
        proof {
            let e = before.elements(target, true).unwrap().1;
            assert(self.mem.heap_view() =~= before.objects.insert(
                h.0,
                ObjView { mark, data: DataView::Vec(e.push(x)) },
            ));
            assert(self@ =~= before.with_object(h.0, ObjView { mark, data: DataView::Vec(e.push(x)) }));
        }
        true
    }

}

} // verus!
