//! Typed commands: assignment, comment, and the G/M/O/S/T code families.

use vstd::prelude::*;

use crate::expression::{Expression, Param};
use crate::fbits::FloatBits;
use crate::NUM_AXES;

verus! {

/// A whole input line's meaning.
#[derive(Debug, PartialEq)]
pub enum Command {
    /// Literal text between `(` and the next `)`.
    Comment(String),
    /// Target parameter gets the evaluated right-hand side.
    Assign(Param, Expression),
    G(Gcode),
    M(Mcode),
    O(Ocode),
    S(Scode),
    T(Tcode),
}

/// The supported G codes.
#[derive(Debug, PartialEq)]
pub enum Gcode {
    /// Rapid move.
    G0(Option<Axes>),
    /// Linear move.
    G1(Axes),
    /// Inch units.
    G20,
    /// Millimetre units.
    G21,
    /// Machine coordinates.
    G53,
    /// Work coordinate system 1.
    G54,
    /// Work coordinate system 2.
    G55,
    /// Absolute positioning.
    G90,
    /// Relative positioning.
    G91,
}

/// The supported M codes.
#[derive(Debug, PartialEq, Eq, Structural, Clone, Copy)]
pub enum Mcode {
    M3,
    M4,
    M5,
    M6(Option<Tcode>),
    M7,
    M8,
    M9,
}

/// An O-word: a control-flow statement scoped by an integer id.
#[derive(Debug, PartialEq)]
pub struct Ocode {
    pub id: u32,
    pub statement: OcodeStatement,
}

impl Ocode {
    pub fn new(id: u32, statement: OcodeStatement) -> (r: Self)
        ensures
            r == (Ocode { id, statement }),
    {
        Self { id, statement }
    }
}

/// The statement of an O-word.
#[derive(Debug, PartialEq)]
pub enum OcodeStatement {
    Sub,
    EndSub,
    If(Expression),
    EndIf,
}

/// Spindle speed.
#[derive(Debug, PartialEq, Eq, Structural, Clone, Copy)]
pub struct Scode(pub FloatBits);

/// Tool number.
#[derive(Debug, PartialEq, Eq, Structural, Clone, Copy)]
pub struct Tcode(pub u32);

/// Feed rate.
#[derive(Debug, PartialEq, Eq, Structural, Clone, Copy)]
pub struct Fcode(pub FloatBits);

/// An axis letter.
#[derive(Debug, PartialEq, Eq, Structural, Clone, Copy)]
pub enum Axis {
    X,
    Y,
    Z,
    A,
    B,
    C,
}

/// The slot an axis occupies in an axis map.
pub open spec fn sp_axis_idx(a: Axis) -> int {
    match a {
        Axis::X => 0,
        Axis::Y => 1,
        Axis::Z => 2,
        Axis::A => 3,
        Axis::B => 4,
        Axis::C => 5,
    }
}

/// The axis spelled by a byte, in either case.
pub open spec fn sp_axis_of_byte(b: u8) -> Option<Axis> {
    if b == 88 || b == 120 {  // X x
        Some(Axis::X)
    } else if b == 89 || b == 121 {  // Y y
        Some(Axis::Y)
    } else if b == 90 || b == 122 {  // Z z
        Some(Axis::Z)
    } else if b == 65 || b == 97 {  // A a
        Some(Axis::A)
    } else if b == 66 || b == 98 {  // B b
        Some(Axis::B)
    } else if b == 67 || b == 99 {  // C c
        Some(Axis::C)
    } else {
        None
    }
}

impl Axis {
    /// The axis named by a letter, either case.
    pub fn from_chr(chr: char) -> (r: Option<Self>)
        ensures
            r == sp_axis_of_byte(if chr as u32 <= 255 {
                chr as u8
            } else {
                0u8
            }),
    {
        match chr {
            'X' | 'x' => Some(Axis::X),
            'Y' | 'y' => Some(Axis::Y),
            'Z' | 'z' => Some(Axis::Z),
            'A' | 'a' => Some(Axis::A),
            'B' | 'b' => Some(Axis::B),
            'C' | 'c' => Some(Axis::C),
            _ => None,
        }
    }

    /// The axis named by a byte, either case.
    pub fn from_byte(b: u8) -> (r: Option<Self>)
        ensures
            r == sp_axis_of_byte(b),
    {
        if b == 88 || b == 120 {
            Some(Axis::X)
        } else if b == 89 || b == 121 {
            Some(Axis::Y)
        } else if b == 90 || b == 122 {
            Some(Axis::Z)
        } else if b == 65 || b == 97 {
            Some(Axis::A)
        } else if b == 66 || b == 98 {
            Some(Axis::B)
        } else if b == 67 || b == 99 {
            Some(Axis::C)
        } else {
            None
        }
    }

    /// This axis's slot index.
    pub fn to_idx(&self) -> (r: usize)
        ensures
            r == sp_axis_idx(*self),
            r < NUM_AXES,
    {
        match self {
            Axis::X => 0,
            Axis::Y => 1,
            Axis::Z => 2,
            Axis::A => 3,
            Axis::B => 4,
            Axis::C => 5,
        }
    }
}

/// A map from axis letter to an optional expression, one slot per axis.
#[derive(Debug, PartialEq)]
pub struct Axes {
    slots: Vec<Option<Expression>>,
}

impl Axes {
    /// There is exactly one slot for each axis letter.
    #[verifier::type_invariant]
    spec fn wf(self) -> bool {
        self.slots@.len() == NUM_AXES
    }
}

impl View for Axes {
    type V = Seq<Option<Expression>>;

    closed spec fn view(&self) -> Seq<Option<Expression>> {
        self.slots@
    }
}

/// The axis map with every slot empty.
pub open spec fn sp_axes_empty() -> Seq<Option<Expression>> {
    seq![None, None, None, None, None, None]
}

impl Axes {
    /// An axis map with no axis set.
    pub fn new() -> (r: Self)
        ensures
            r@ == sp_axes_empty(),
            r@.len() == NUM_AXES,
    {
        let mut slots: Vec<Option<Expression>> = Vec::new();
        slots.push(None);
        slots.push(None);
        slots.push(None);
        slots.push(None);
        slots.push(None);
        slots.push(None);
        proof {
            assert(slots@ =~= sp_axes_empty());
        }
        Self { slots }
    }

    /// The expression set for an axis, if any.
    pub fn get(&self, axis: Axis) -> (r: Option<&Expression>)
        ensures
            match r {
                Some(e) => self@[sp_axis_idx(axis)] == Some(*e),
                None => self@[sp_axis_idx(axis)] is None,
            },
            self@.len() == NUM_AXES,
    {
        proof {
            use_type_invariant(self);
        }
        let idx = axis.to_idx();
        self.slots[idx].as_ref()
    }

    /// The number of slots: one per axis letter.
    pub fn slot_count(&self) -> (r: usize)
        ensures
            r == self@.len(),
            r == NUM_AXES,
    {
        proof {
            use_type_invariant(self);
        }
        self.slots.len()
    }

    /// The expression in one slot, by index.
    pub fn get_slot(&self, i: usize) -> (r: Option<&Expression>)
        requires
            i < NUM_AXES,
        ensures
            match r {
                Some(e) => self@[i as int] == Some(*e),
                None => self@[i as int] is None,
            },
            self@.len() == NUM_AXES,
    {
        proof {
            use_type_invariant(self);
        }
        self.slots[i].as_ref()
    }

    /// The map with one axis set to the given expression.
    pub fn set(self, axis: Axis, value: Expression) -> (r: Self)
        ensures
            r@ == self@.update(sp_axis_idx(axis), Some(value)),
            r@.len() == NUM_AXES,
            self@.len() == NUM_AXES,
    {
        proof {
            use_type_invariant(&self);
        }
        let mut slots = self.slots;
        let idx = axis.to_idx();
        slots.set(idx, Some(value));
        Self { slots }
    }
}

} // verus!
