use crate::ir::Variable;
use vstd::prelude::*;

verus! {

/// Where an operand of a bytecode lives: the top two bits of the number
/// give the area (0 locals, 1 temporaries, 2 globals, 3 constants), the
/// other fourteen the index in it.
#[derive(Clone, Copy, PartialEq, Eq, Structural, Debug)]
pub struct Loc(pub u16);

/// The area of memory a location points into.
#[derive(Clone, Copy, PartialEq, Eq, Structural, Debug)]
pub enum Area {
    Local,
    Temp,
    Global,
    Const,
}

/// The largest index a location can hold, plus one.
pub const LOC_LIMIT: usize = 0x4000;

impl Loc {
    /// The area a location points into.
    pub open spec fn area(self) -> Area {
        let tag = self.0 as int / 0x4000;
        if tag == 0 {
            Area::Local
        } else if tag == 1 {
            Area::Temp
        } else if tag == 2 {
            Area::Global
        } else {
            Area::Const
        }
    }

    /// The index in its area.
    pub open spec fn index(self) -> int {
        self.0 as int % 0x4000
    }

    /// The area and index of a location.
    pub fn decode(self) -> (r: (Area, usize))
        ensures
            r.0 == self.area(),
            r.1 == self.index(),
    {
        let tag = self.0 / 0x4000;
        let idx = (self.0 % 0x4000) as usize;
        let area = if tag == 0 {
            Area::Local
        } else if tag == 1 {
            Area::Temp
        } else if tag == 2 {
            Area::Global
        } else {
            Area::Const
        };
        (area, idx)
    }

    /// The location of constant `idx`.
    pub fn from_const(idx: usize) -> (l: Loc)
        requires
            idx < LOC_LIMIT,
        ensures
            l.area() == Area::Const,
            l.index() == idx,
            l == const_loc(idx as int),
    {
        let i = idx as u16;
        assert((0xC000u16 | i) == 0xC000u16 + i) by (bit_vector)
            requires
                i < 0x4000u16,
        ;
        Loc(0xC000 | i)
    }

    /// The location of a variable.
    pub fn from_variable(v: Variable) -> (l: Loc)
        requires
            var_fits(v),
        ensures
            l == var_loc(v),
    {
        match v {
            Variable::Local(idx) => Loc(idx as u16),
            Variable::Temp(idx) => Loc(0x4000 + idx as u16),
            Variable::Global(idx) => Loc(0x8000 + idx as u16),
        }
    }
}

/// The location of constant `i`.
pub open spec fn const_loc(i: int) -> Loc {
    Loc((0xC000 + i) as u16)
}

/// Whether a variable's index fits a location.
pub open spec fn var_fits(v: Variable) -> bool {
    match v {
        Variable::Local(i) => i < LOC_LIMIT,
        Variable::Temp(i) => i < LOC_LIMIT,
        Variable::Global(i) => i < LOC_LIMIT,
    }
}

/// The location of a variable.
pub open spec fn var_loc(v: Variable) -> Loc {
    match v {
        Variable::Local(i) => Loc(i as u16),
        Variable::Temp(i) => Loc((0x4000 + i) as u16),
        Variable::Global(i) => Loc((0x8000 + i) as u16),
    }
}

/// The area a variable lives in.
pub open spec fn var_area(v: Variable) -> Area {
    match v {
        Variable::Local(_) => Area::Local,
        Variable::Temp(_) => Area::Temp,
        Variable::Global(_) => Area::Global,
    }
}

/// The index of a variable in its area.
pub open spec fn var_index(v: Variable) -> int {
    match v {
        Variable::Local(i) => i as int,
        Variable::Temp(i) => i as int,
        Variable::Global(i) => i as int,
    }
}

/// A location made from a constant's or a variable's index decodes to that
/// area and index, wherever the index fits.
pub proof fn law_loc_round_trip(i: int, v: Variable)
    ensures
        0 <= i < LOC_LIMIT ==> const_loc(i).area() == Area::Const && const_loc(i).index() == i,
        var_fits(v) ==> var_loc(v).area() == var_area(v) && var_loc(v).index() == var_index(v),
{
}

/// An instruction of the virtual machine. Operands are locations; `Br` and
/// `Jump` give the index of the instruction to go on at.
#[derive(Clone, Copy, Debug)]
pub enum ByteCode {
    Pos { dst: Loc, src: Loc },
    Neg { dst: Loc, src: Loc },
    Not { dst: Loc, src: Loc },
    BitNot { dst: Loc, src: Loc },
    Add { dst: Loc, left: Loc, right: Loc },
    Sub { dst: Loc, left: Loc, right: Loc },
    Mul { dst: Loc, left: Loc, right: Loc },
    Div { dst: Loc, left: Loc, right: Loc },
    Mod { dst: Loc, left: Loc, right: Loc },
    BitAnd { dst: Loc, left: Loc, right: Loc },
    BitOr { dst: Loc, left: Loc, right: Loc },
    BitXor { dst: Loc, left: Loc, right: Loc },
    Shl { dst: Loc, left: Loc, right: Loc },
    Shr { dst: Loc, left: Loc, right: Loc },
    Eq { dst: Loc, left: Loc, right: Loc },
    Ne { dst: Loc, left: Loc, right: Loc },
    Lt { dst: Loc, left: Loc, right: Loc },
    Le { dst: Loc, left: Loc, right: Loc },
    Gt { dst: Loc, left: Loc, right: Loc },
    Ge { dst: Loc, left: Loc, right: Loc },
    And { dst: Loc, left: Loc, right: Loc },
    Or { dst: Loc, left: Loc, right: Loc },
    GetParam { dst: Loc },
    Param { src: Loc },
    NewObject { dst: Loc, size: u32 },
    Call { dst: Loc, func: Loc, param_cnt: u16 },
    Load { from: Loc, to: Loc },
    Br { cond: Loc, then_offset: u32, else_offset: u32 },
    Jump { offset: u32 },
    SetIndex { dst: Loc, idx: Loc, src: Loc },
    Index { dst: Loc, idx: Loc, src: Loc },
    SetMember { dst: Loc, offset: u16, src: Loc },
    Member { dst: Loc, offset: u16, src: Loc },
    Return { src: Option<Loc> },
}

} // verus!
