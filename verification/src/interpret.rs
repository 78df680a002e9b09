//! The command interpreter: owner of the variable stores and the modal
//! state, applying one parsed command at a time.
//!
//! Reads of unbound variables inside a right-hand side substitute `0.0`
//! (see the evaluator), so every supported command is interpreted without
//! error and the error type's variants are never produced; they remain for
//! callers that match on them.

use vstd::prelude::*;

use crate::eval;
use crate::eval::{
    sp_eval_param, sp_eval_subst, sp_exists, sp_lookup_name, sp_lookup_num, EvalContext, VarsView,
};
use crate::expression::{Expression, NamedParam, Param};
use crate::fbits;
use crate::fbits::FloatBits;
use crate::command::{Axes, Command, Gcode};
use crate::model_state::{ModelState, ModelStateUnit, PositioningMode, Workspace};
use crate::spec_ast::{SpecCommand, SpecExpression, SpecGcode, SpecParam};
use crate::varmap::{NameMap, NumMap};
use crate::NUM_AXES;

verus! {

/// Why a command could not be interpreted.
#[derive(Debug, PartialEq)]
pub enum InterpretError {
    /// An assignment target could not be resolved.
    ParamNotFound(Param),
    /// An expression could not be reduced to a value.
    CannotEval(Expression),
}

/// What interpreting a command produced.
#[derive(Debug, PartialEq)]
pub enum InterpretValue {
    /// An assignment's evaluated right-hand side.
    EvalExpr(FloatBits),
    /// A motion command's evaluated axis values, ready for a motion sink.
    Motion(Vec<Option<FloatBits>>),
    /// Nothing observable.
    Other,
}

/// View of an [`InterpretValue`].
pub enum SpecInterpretValue {
    EvalExpr(u32),
    Motion(Seq<Option<u32>>),
    Other,
}

impl View for InterpretValue {
    type V = SpecInterpretValue;

    open spec fn view(&self) -> SpecInterpretValue {
        match self {
            InterpretValue::EvalExpr(b) => SpecInterpretValue::EvalExpr(b.0),
            InterpretValue::Motion(v) => SpecInterpretValue::Motion(
                v@.map_values(
                    |o: Option<FloatBits>|
                        match o {
                            Some(b) => Some(b.0),
                            None => None,
                        },
                ),
            ),
            InterpretValue::Other => SpecInterpretValue::Other,
        }
    }
}

/// The interpreter's whole state as the contracts see it.
pub struct InterpView {
    pub vars: VarsView,
    pub unit: ModelStateUnit,
    pub workspace: Workspace,
    pub positioning: PositioningMode,
    pub feedrate: FloatBits,
    pub abs_position: Seq<FloatBits>,
}

/// Writing a value to an assignment target; an indirect target's index is
/// evaluated (with substitution) in the state before the write.
pub open spec fn sp_write(v: InterpView, p: SpecParam, val: u32) -> InterpView {
    match p {
        SpecParam::Numbered(n) => InterpView {
            vars: VarsView { numbered: v.vars.numbered.insert(n, val), ..v.vars },
            ..v
        },
        SpecParam::NamedLocal(nm) => InterpView {
            vars: VarsView { local: v.vars.local.insert(nm, val), ..v.vars },
            ..v
        },
        SpecParam::NamedGlobal(nm) => InterpView {
            vars: VarsView { global: v.vars.global.insert(nm, val), ..v.vars },
            ..v
        },
        SpecParam::Expr(ie) => InterpView {
            vars: VarsView {
                numbered: v.vars.numbered.insert(
                    fbits::trunc_u32_of(sp_eval_subst(*ie, v.vars)),
                    val,
                ),
                ..v.vars
            },
            ..v
        },
    }
}

/// One axis row with every expression reduced to a value.
pub open spec fn sp_eval_axes(row: Seq<Option<SpecExpression>>, v: VarsView) -> Seq<
    Option<u32>,
> {
    row.map_values(
        |o: Option<SpecExpression>|
            match o {
                Some(e) => Some(sp_eval_subst(e, v)),
                None => None,
            },
    )
}

/// The evaluated axis row, slot by slot: a set axis carries its
/// expression's substituted value, an unset one stays empty.
pub proof fn lemma_eval_axes_pointwise(row: Seq<Option<SpecExpression>>, v: VarsView)
    ensures
        sp_eval_axes(row, v).len() == row.len(),
        forall|k: int|
            0 <= k < row.len() ==> #[trigger] sp_eval_axes(row, v)[k] == (match row[k] {
                Some(e) => Some(sp_eval_subst(e, v)),
                None => None,
            }),
{
}

/// What one command does to the state, and what it yields.  Commands are
/// applied in input order; assignments evaluate their right-hand side in
/// the state before the write; motion commands change no state here, they
/// only carry their evaluated axes out to the sink.
pub open spec fn sp_interpret(v: InterpView, c: SpecCommand) -> (InterpView, SpecInterpretValue) {
    match c {
        SpecCommand::Comment(_) => (v, SpecInterpretValue::Other),
        SpecCommand::Assign(p, e) => {
            let val = sp_eval_subst(e, v.vars);
            (sp_write(v, p, val), SpecInterpretValue::EvalExpr(val))
        },
        SpecCommand::G(g) => match g {
            SpecGcode::G0(None) => (
                v,
                SpecInterpretValue::Motion(seq![None, None, None, None, None, None]),
            ),
            SpecGcode::G0(Some(row)) => (v, SpecInterpretValue::Motion(sp_eval_axes(row, v.vars))),
            SpecGcode::G1(row) => (v, SpecInterpretValue::Motion(sp_eval_axes(row, v.vars))),
            SpecGcode::G20 => (
                InterpView { unit: ModelStateUnit::In, ..v },
                SpecInterpretValue::Other,
            ),
            SpecGcode::G21 => (
                InterpView { unit: ModelStateUnit::Mm, ..v },
                SpecInterpretValue::Other,
            ),
            SpecGcode::G53 => (
                InterpView { workspace: Workspace::Machine, ..v },
                SpecInterpretValue::Other,
            ),
            SpecGcode::G54 => (
                InterpView { workspace: Workspace::G54, ..v },
                SpecInterpretValue::Other,
            ),
            SpecGcode::G55 => (
                InterpView { workspace: Workspace::G55, ..v },
                SpecInterpretValue::Other,
            ),
            SpecGcode::G90 => (
                InterpView { positioning: PositioningMode::Absolute, ..v },
                SpecInterpretValue::Other,
            ),
            SpecGcode::G91 => (
                InterpView { positioning: PositioningMode::Relative, ..v },
                SpecInterpretValue::Other,
            ),
        },
        SpecCommand::M(_) => (v, SpecInterpretValue::Other),
        SpecCommand::O(_) => (v, SpecInterpretValue::Other),
        SpecCommand::S(_) => (v, SpecInterpretValue::Other),
        SpecCommand::T(_) => (v, SpecInterpretValue::Other),
    }
}

/// The interpreter: the three variable stores and the modal state.
pub struct Interpreter {
    numbered: NumMap,
    named_locals: NameMap,
    named_globals: NameMap,
    model_state: ModelState,
}

impl View for Interpreter {
    type V = InterpView;

    closed spec fn view(&self) -> InterpView {
        InterpView {
            vars: VarsView {
                numbered: self.numbered@,
                local: self.named_locals@,
                global: self.named_globals@,
            },
            unit: self.model_state.selected_unit,
            workspace: self.model_state.workspace,
            positioning: self.model_state.positioning,
            feedrate: self.model_state.feedrate,
            abs_position: self.model_state.abs_position@,
        }
    }
}

/// A fresh session's state: nothing bound, default modal state, zero
/// feedrate, origin position.
pub open spec fn sp_interp_fresh(v: InterpView) -> bool {
    &&& v.vars.numbered == Map::<u32, u32>::empty()
    &&& v.vars.local == Map::<Seq<char>, u32>::empty()
    &&& v.vars.global == Map::<Seq<char>, u32>::empty()
    &&& v.unit == ModelStateUnit::Mm
    &&& v.workspace == Workspace::Machine
    &&& v.positioning == PositioningMode::Absolute
    &&& v.feedrate == FloatBits(0)
    &&& v.abs_position == Seq::new(NUM_AXES as nat, |i: int| FloatBits(0))
}

impl Interpreter {
    /// A fresh interpreter: no variables bound, default modal state.
    pub fn new() -> (r: Self)
        ensures
            sp_interp_fresh(r@),
    {
        Interpreter {
            numbered: NumMap::new(),
            named_locals: NameMap::new(),
            named_globals: NameMap::new(),
            model_state: ModelState::new(),
        }
    }

    /// The current modal state.
    pub fn get_model_state(&self) -> (r: &ModelState)
        ensures
            r.selected_unit == self@.unit,
            r.workspace == self@.workspace,
            r.positioning == self@.positioning,
            r.feedrate == self@.feedrate,
            r.abs_position@ == self@.abs_position,
    {
        &self.model_state
    }

    /// Read a numbered variable.
    pub fn get_numbered_param(&self, n: u32) -> (r: Option<FloatBits>)
        ensures
            eval::opt_bits(r) == sp_lookup_num(self@.vars.numbered, n),
    {
        self.numbered.get(n)
    }

    /// Read a named local variable (name pre-normalized).
    pub fn get_local_param(&self, name: &String) -> (r: Option<FloatBits>)
        ensures
            eval::opt_bits(r) == sp_lookup_name(self@.vars.local, name@),
    {
        self.named_locals.get(name)
    }

    /// Read a named global variable (name pre-normalized).
    pub fn get_global_param(&self, name: &String) -> (r: Option<FloatBits>)
        ensures
            eval::opt_bits(r) == sp_lookup_name(self@.vars.global, name@),
    {
        self.named_globals.get(name)
    }

    /// Strict parameter read: `None` for anything unbound.
    pub fn get_param(&self, param: &Param) -> (r: Option<FloatBits>)
        ensures
            eval::opt_bits(r) == sp_eval_param(param@, self@.vars),
    {
        eval::eval_param(param, self)
    }

    /// Reduce an expression in this interpreter's state, reading unbound
    /// variables as `0.0`.
    pub fn eval_expr(&self, e: &Expression) -> (r: FloatBits)
        ensures
            r.0 == sp_eval_subst(e@, self@.vars),
    {
        e.eval_subst(self)
    }

    /// Apply one parsed command: mutate variables or modal state, and
    /// yield the command's value.  Every supported command succeeds.
    pub fn interpret(&mut self, command: Command) -> (r: Result<
        InterpretValue,
        InterpretError,
    >)
        ensures
            match r {
                Ok(val) => (final(self)@, val@) == sp_interpret(old(self)@, command@),
                Err(_) => false,
            },
    {
        match command {
            Command::Comment(_) => Ok(InterpretValue::Other),
            Command::Assign(to, from) => self.interpret_assign(to, from),
            Command::G(gcode) => self.interpret_gcode(gcode),
            Command::M(_) => Ok(InterpretValue::Other),
            Command::O(_) => Ok(InterpretValue::Other),
            Command::S(_) => Ok(InterpretValue::Other),
            Command::T(_) => Ok(InterpretValue::Other),
        }
    }

    /// Evaluate the right-hand side in the current state, then write it to
    /// the target.
    fn interpret_assign(&mut self, to: Param, from: Expression) -> (r: Result<
        InterpretValue,
        InterpretError,
    >)
        ensures
            match r {
                Ok(val) => (final(self)@, val@) == sp_interpret(
                    old(self)@,
                    SpecCommand::Assign(to@, from@),
                ),
                Err(_) => false,
            },
    {
        let val = from.eval_subst(&*self);
        match to {
            Param::Numbered(n) => self.numbered.set(n, val),
            Param::NamedLocal(nm) => self.named_locals.set(nm, val),
            Param::NamedGlobal(nm) => self.named_globals.set(nm, val),
            Param::Expr(ie) => {
                let idx = fbits::trunc_u32((*ie).eval_subst(&*self));
                self.numbered.set(idx, val);
            },
        }
        Ok(InterpretValue::EvalExpr(val))
    }

    /// Apply a G code: update modal state, or evaluate a motion command's
    /// axes for the sink.
    fn interpret_gcode(&mut self, gcode: Gcode) -> (r: Result<InterpretValue, InterpretError>)
        ensures
            match r {
                Ok(val) => (final(self)@, val@) == sp_interpret(
                    old(self)@,
                    SpecCommand::G(gcode@),
                ),
                Err(_) => false,
            },
    {
        match gcode {
            Gcode::G0(None) => {
                let mut row: Vec<Option<FloatBits>> = Vec::new();
                let mut i: usize = 0;
                while i < NUM_AXES
                    invariant
                        i <= NUM_AXES,
                        row@ == Seq::new(i as nat, |k: int| None::<FloatBits>),
                    decreases NUM_AXES - i,
                {
                    row.push(None);
                    proof {
                        assert(row@ =~= Seq::new((i + 1) as nat, |k: int| None::<FloatBits>));
                    }
                    i += 1;
                }
                let out = InterpretValue::Motion(row);
                proof {
                    assert(out@->Motion_0 =~= seq![None, None, None, None, None, None]);
                }
                Ok(out)
            },
            Gcode::G0(Some(axes)) => {
                let row = self.eval_axes(&axes);
                Ok(InterpretValue::Motion(row))
            },
            Gcode::G1(axes) => {
                let row = self.eval_axes(&axes);
                Ok(InterpretValue::Motion(row))
            },
            Gcode::G20 => {
                self.model_state.selected_unit = ModelStateUnit::In;
                Ok(InterpretValue::Other)
            },
            Gcode::G21 => {
                self.model_state.selected_unit = ModelStateUnit::Mm;
                Ok(InterpretValue::Other)
            },
            Gcode::G53 => {
                self.model_state.workspace = Workspace::Machine;
                Ok(InterpretValue::Other)
            },
            Gcode::G54 => {
                self.model_state.workspace = Workspace::G54;
                Ok(InterpretValue::Other)
            },
            Gcode::G55 => {
                self.model_state.workspace = Workspace::G55;
                Ok(InterpretValue::Other)
            },
            Gcode::G90 => {
                self.model_state.positioning = PositioningMode::Absolute;
                Ok(InterpretValue::Other)
            },
            Gcode::G91 => {
                self.model_state.positioning = PositioningMode::Relative;
                Ok(InterpretValue::Other)
            },
        }
    }

    /// Evaluate every set axis expression, with substitution.
    fn eval_axes(&self, axes: &Axes) -> (r: Vec<Option<FloatBits>>)
        ensures
            r@.map_values(
                |o: Option<FloatBits>|
                    match o {
                        Some(b) => Some(b.0),
                        None => None,
                    },
            ) =~= sp_eval_axes(crate::spec_ast::sp_view_axes(*axes), self@.vars),
    {
        let mut row: Vec<Option<FloatBits>> = Vec::new();
        let n_ax = axes.slot_count();
        let mut i: usize = 0;
        while i < n_ax
            invariant
                i <= NUM_AXES,
                n_ax == NUM_AXES,
                axes@.len() == NUM_AXES,
                row@.len() == i,
                forall|k: int|
                    0 <= k < i ==> #[trigger] row@[k] == (match axes@[k] {
                        Some(e) => Some(FloatBits(sp_eval_subst(e@, self@.vars))),
                        None => None::<FloatBits>,
                    }),
            decreases NUM_AXES - i,
        {
            match axes.get_slot(i) {
                Some(e) => {
                    let v = e.eval_subst(self);
                    row.push(Some(v));
                },
                None => {
                    row.push(None);
                },
            }
            i += 1;
        }
        row
    }
}

impl EvalContext for Interpreter {
    open spec fn vars(&self) -> VarsView {
        self@.vars
    }

    /// The interpreter knows the authoritative environment, so a parser
    /// may fold constants against it.
    fn const_fold(&self) -> bool {
        true
    }

    fn get_numbered(&self, n: u32) -> (r: Option<FloatBits>) {
        self.numbered.get(n)
    }

    fn get_local(&self, name: &String) -> (r: Option<FloatBits>) {
        self.named_locals.get(name)
    }

    fn get_global(&self, name: &String) -> (r: Option<FloatBits>) {
        self.named_globals.get(name)
    }

    fn named_param_exists(&self, p: &NamedParam) -> (r: bool) {
        match p {
            NamedParam::NamedLocal(nm) => self.named_locals.contains(nm),
            NamedParam::NamedGlobal(nm) => self.named_globals.contains(nm),
        }
    }
}

} // verus!
