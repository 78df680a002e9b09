//! The mathematical view of the syntax tree: the same shape as the
//! executable types, with strings seen as character sequences and axis maps
//! as sequences.  Parser and interpreter contracts speak of these views.

use vstd::prelude::*;

use crate::binop::BinOp;
use crate::expression::{Expression, FuncCall, NamedParam, Param, UnaryFuncName};
use crate::command::{Axes, Command, Gcode, Mcode, Ocode, OcodeStatement, Scode, Tcode};

verus! {

/// View of a [`Param`].
pub enum SpecParam {
    NamedLocal(Seq<char>),
    NamedGlobal(Seq<char>),
    Numbered(u32),
    Expr(Box<SpecExpression>),
}

/// View of a [`NamedParam`].
pub enum SpecNamedParam {
    NamedLocal(Seq<char>),
    NamedGlobal(Seq<char>),
}

/// View of a [`FuncCall`].
pub enum SpecFuncCall {
    Exists { param: SpecNamedParam },
    Atan { arg_y: Box<SpecExpression>, arg_x: Box<SpecExpression> },
    Unary { name: UnaryFuncName, arg: Box<SpecExpression> },
}

/// View of an [`Expression`]; a literal is its bit pattern.
pub enum SpecExpression {
    Lit(u32),
    Param(SpecParam),
    FuncCall(SpecFuncCall),
    BinOpExpr { op: BinOp, left: Box<SpecExpression>, right: Box<SpecExpression> },
}

/// View of a [`Command`].
pub enum SpecCommand {
    Comment(Seq<char>),
    Assign(SpecParam, SpecExpression),
    G(SpecGcode),
    M(Mcode),
    O(SpecOcode),
    S(Scode),
    T(Tcode),
}

/// View of a [`Gcode`]; an axis map is its slot sequence.
pub enum SpecGcode {
    G0(Option<Seq<Option<SpecExpression>>>),
    G1(Seq<Option<SpecExpression>>),
    G20,
    G21,
    G53,
    G54,
    G55,
    G90,
    G91,
}

/// View of an [`Ocode`].
pub struct SpecOcode {
    pub id: u32,
    pub statement: SpecOcodeStatement,
}

/// View of an [`OcodeStatement`].
pub enum SpecOcodeStatement {
    Sub,
    EndSub,
    If(SpecExpression),
    EndIf,
}

impl View for Expression {
    type V = SpecExpression;

    open spec fn view(&self) -> SpecExpression
        decreases *self,
    {
        match self {
            Expression::Lit(b) => SpecExpression::Lit(b.0),
            Expression::Param(p) => SpecExpression::Param(p@),
            Expression::FuncCall(f) => SpecExpression::FuncCall(f@),
            Expression::BinOpExpr { op, left, right } => SpecExpression::BinOpExpr {
                op: *op,
                left: Box::new((**left)@),
                right: Box::new((**right)@),
            },
        }
    }
}

impl View for Param {
    type V = SpecParam;

    open spec fn view(&self) -> SpecParam
        decreases *self,
    {
        match self {
            Param::NamedLocal(s) => SpecParam::NamedLocal(s@),
            Param::NamedGlobal(s) => SpecParam::NamedGlobal(s@),
            Param::Numbered(n) => SpecParam::Numbered(*n),
            Param::Expr(e) => SpecParam::Expr(Box::new((**e)@)),
        }
    }
}

impl View for NamedParam {
    type V = SpecNamedParam;

    open spec fn view(&self) -> SpecNamedParam {
        match self {
            NamedParam::NamedLocal(s) => SpecNamedParam::NamedLocal(s@),
            NamedParam::NamedGlobal(s) => SpecNamedParam::NamedGlobal(s@),
        }
    }
}

impl View for FuncCall {
    type V = SpecFuncCall;

    open spec fn view(&self) -> SpecFuncCall
        decreases *self,
    {
        match self {
            FuncCall::Exists { param } => SpecFuncCall::Exists { param: param@ },
            FuncCall::Atan { arg_y, arg_x } => SpecFuncCall::Atan {
                arg_y: Box::new((**arg_y)@),
                arg_x: Box::new((**arg_x)@),
            },
            FuncCall::Unary { name, arg } => SpecFuncCall::Unary {
                name: *name,
                arg: Box::new((**arg)@),
            },
        }
    }
}

/// View of one axis slot row.
pub open spec fn sp_view_axes(a: Axes) -> Seq<Option<SpecExpression>> {
    a@.map_values(
        |slot: Option<Expression>|
            match slot {
                Some(e) => Some(e@),
                None => None,
            },
    )
}

impl View for Gcode {
    type V = SpecGcode;

    open spec fn view(&self) -> SpecGcode {
        match self {
            Gcode::G0(None) => SpecGcode::G0(None),
            Gcode::G0(Some(a)) => SpecGcode::G0(Some(sp_view_axes(*a))),
            Gcode::G1(a) => SpecGcode::G1(sp_view_axes(*a)),
            Gcode::G20 => SpecGcode::G20,
            Gcode::G21 => SpecGcode::G21,
            Gcode::G53 => SpecGcode::G53,
            Gcode::G54 => SpecGcode::G54,
            Gcode::G55 => SpecGcode::G55,
            Gcode::G90 => SpecGcode::G90,
            Gcode::G91 => SpecGcode::G91,
        }
    }
}

impl View for Ocode {
    type V = SpecOcode;

    open spec fn view(&self) -> SpecOcode {
        SpecOcode { id: self.id, statement: self.statement@ }
    }
}

impl View for OcodeStatement {
    type V = SpecOcodeStatement;

    open spec fn view(&self) -> SpecOcodeStatement {
        match self {
            OcodeStatement::Sub => SpecOcodeStatement::Sub,
            OcodeStatement::EndSub => SpecOcodeStatement::EndSub,
            OcodeStatement::If(e) => SpecOcodeStatement::If(e@),
            OcodeStatement::EndIf => SpecOcodeStatement::EndIf,
        }
    }
}

impl View for Command {
    type V = SpecCommand;

    open spec fn view(&self) -> SpecCommand {
        match self {
            Command::Comment(s) => SpecCommand::Comment(s@),
            Command::Assign(p, e) => SpecCommand::Assign(p@, e@),
            Command::G(g) => SpecCommand::G(g@),
            Command::M(m) => SpecCommand::M(*m),
            Command::O(o) => SpecCommand::O(o@),
            Command::S(s) => SpecCommand::S(*s),
            Command::T(t) => SpecCommand::T(*t),
        }
    }
}

} // verus!
