//! Modal interpreter state: selected unit, workspace, positioning mode,
//! feedrate and remembered absolute position.

use vstd::prelude::*;

use crate::fbits::FloatBits;
use crate::NUM_AXES;

verus! {

/// Selected length unit; millimetres until a `G20` is seen.
#[derive(Debug, PartialEq, Eq, Structural, Clone, Copy)]
pub enum ModelStateUnit {
    /// After `G20`.
    In,
    /// The default, and after `G21`.
    Mm,
}

/// Selected coordinate frame; machine coordinates until a work offset is
/// selected.
#[derive(Debug, PartialEq, Eq, Structural, Clone, Copy)]
pub enum Workspace {
    Machine,
    G54,
    G55,
    G56,
    G57,
    G58,
    G59,
    G59_1,
    G59_2,
    G59_3,
}

/// Positioning mode; absolute until a `G91` is seen.
#[derive(Debug, PartialEq, Eq, Structural, Clone, Copy)]
pub enum PositioningMode {
    /// After `G90`, and the default.
    Absolute,
    /// After `G91`.
    Relative,
}

/// The modal state a session carries between commands.
#[derive(Debug, PartialEq)]
pub struct ModelState {
    pub selected_unit: ModelStateUnit,
    pub workspace: Workspace,
    pub positioning: PositioningMode,
    /// Feedrate in mm/s; no supported command writes it yet.
    pub feedrate: FloatBits,
    /// Remembered absolute position, one slot per axis.
    pub abs_position: Vec<FloatBits>,
}

/// The state a fresh session starts from.
pub open spec fn sp_model_state_default(m: ModelState) -> bool {
    &&& m.selected_unit == ModelStateUnit::Mm
    &&& m.workspace == Workspace::Machine
    &&& m.positioning == PositioningMode::Absolute
    &&& m.feedrate == FloatBits(0)
    &&& m.abs_position@ == Seq::new(NUM_AXES as nat, |i: int| FloatBits(0))
}

impl ModelState {
    /// The default modal state: millimetres, machine coordinates, absolute
    /// positioning, zero feedrate, origin position.
    pub fn new() -> (r: Self)
        ensures
            sp_model_state_default(r),
    {
        let mut abs_position: Vec<FloatBits> = Vec::new();
        let mut i: usize = 0;
        while i < NUM_AXES
            invariant
                i <= NUM_AXES,
                abs_position@ == Seq::new(i as nat, |k: int| FloatBits(0)),
            decreases NUM_AXES - i,
        {
            abs_position.push(FloatBits(0));
            proof {
                assert(abs_position@ =~= Seq::new((i + 1) as nat, |k: int| FloatBits(0)));
            }
            i += 1;
        }
        ModelState {
            selected_unit: ModelStateUnit::Mm,
            workspace: Workspace::Machine,
            positioning: PositioningMode::Absolute,
            feedrate: FloatBits(0),
            abs_position,
        }
    }
}

} // verus!
