//! The expression evaluator: a spec-level semantics for every operator and
//! function over single-precision bit patterns, and executable evaluators
//! proved to match it.
//!
//! Two readings of a parameter exist.  The strict evaluator yields nothing
//! when an unbound variable is read — this is what constant folding at
//! parse time must use.  The substituting evaluator, which the interpreter
//! applies to right-hand sides, reads an unbound variable as `0.0` and is
//! therefore total.

use vstd::prelude::*;

use crate::binop::{apply_binop, sp_apply_binop, BinOp};
use crate::expression::{Expression, FuncCall, NamedParam, Param, UnaryFuncName};
use crate::fbits;
use crate::fbits::FloatBits;
use crate::spec_ast::{SpecExpression, SpecFuncCall, SpecNamedParam, SpecParam};

verus! {

/// The variable environment an evaluation reads: the three stores, keyed
/// by parameter number or normalized name, valued by bit patterns.
pub struct VarsView {
    pub numbered: Map<u32, u32>,
    pub local: Map<Seq<char>, u32>,
    pub global: Map<Seq<char>, u32>,
}

/// Lookup in a numbered store.
pub open spec fn sp_lookup_num(m: Map<u32, u32>, n: u32) -> Option<u32> {
    if m.dom().contains(n) {
        Some(m[n])
    } else {
        None
    }
}

/// Lookup in a named store.
pub open spec fn sp_lookup_name(m: Map<Seq<char>, u32>, k: Seq<char>) -> Option<u32> {
    if m.dom().contains(k) {
        Some(m[k])
    } else {
        None
    }
}

/// Whether a named parameter is bound in its scope.
pub open spec fn sp_exists(p: SpecNamedParam, v: VarsView) -> bool {
    match p {
        SpecNamedParam::NamedLocal(n) => v.local.dom().contains(n),
        SpecNamedParam::NamedGlobal(n) => v.global.dom().contains(n),
    }
}

/// What one unary function makes of its evaluated argument.  Three
/// functions go through micromath only on the block where its
/// implementation can be evaluated, and are defined directly elsewhere:
/// `EXP` is infinity on the narrow band where the approximation cannot
/// run — the true value overflows throughout it — and NaN of NaN; `LN`
/// of a negative value is NaN, as the standard function has it; `ASIN`
/// outside [-1, 1], or of NaN, is NaN likewise.
pub open spec fn sp_apply_unary(name: UnaryFuncName, a: u32) -> u32 {
    match name {
        UnaryFuncName::Abs => fbits::abs_bits(a),
        UnaryFuncName::Acos => fbits::acos_bits(a),
        UnaryFuncName::Asin => if fbits::asin_call_ok(a) {
            fbits::asin_bits(a)
        } else {
            fbits::QNAN_BITS
        },
        UnaryFuncName::Cos => fbits::cos_bits(a),
        UnaryFuncName::Exp => if fbits::exp_call_ok(a) {
            fbits::exp_bits(a)
        } else if fbits::is_nan_bits(a) {
            fbits::QNAN_BITS
        } else {
            fbits::INF_BITS
        },
        UnaryFuncName::Fix => fbits::floor_bits(a),
        UnaryFuncName::Fup => fbits::ceil_bits(a),
        UnaryFuncName::Round => fbits::round_bits(a),
        UnaryFuncName::Ln => if fbits::ln_call_ok(a) {
            fbits::ln_bits(a)
        } else {
            fbits::QNAN_BITS
        },
        UnaryFuncName::Sin => fbits::sin_bits(a),
        UnaryFuncName::Sqrt => fbits::sqrt_bits(a),
        UnaryFuncName::Tan => fbits::tan_bits(a),
    }
}

/// Strict evaluation: `None` as soon as any parameter read is unbound;
/// both operands of a binary operator are always evaluated.
pub open spec fn sp_eval(e: SpecExpression, v: VarsView) -> Option<u32>
    decreases e,
{
    match e {
        SpecExpression::Lit(b) => Some(b),
        SpecExpression::Param(p) => sp_eval_param(p, v),
        SpecExpression::FuncCall(f) => sp_eval_func(f, v),
        SpecExpression::BinOpExpr { op, left, right } => match sp_eval(*left, v) {
            Some(a) => match sp_eval(*right, v) {
                Some(b) => Some(sp_apply_binop(op, a, b)),
                None => None,
            },
            None => None,
        },
    }
}

/// Strict parameter read; an indirect reference evaluates its index
/// strictly, truncates it, and reads the numbered store.
pub open spec fn sp_eval_param(p: SpecParam, v: VarsView) -> Option<u32>
    decreases p,
{
    match p {
        SpecParam::Numbered(n) => sp_lookup_num(v.numbered, n),
        SpecParam::NamedLocal(nm) => sp_lookup_name(v.local, nm),
        SpecParam::NamedGlobal(nm) => sp_lookup_name(v.global, nm),
        SpecParam::Expr(ie) => match sp_eval(*ie, v) {
            Some(b) => sp_lookup_num(v.numbered, fbits::trunc_u32_of(b)),
            None => None,
        },
    }
}

/// Strict function-call evaluation.
pub open spec fn sp_eval_func(f: SpecFuncCall, v: VarsView) -> Option<u32>
    decreases f,
{
    match f {
        SpecFuncCall::Exists { param } => Some(fbits::bool_bits(sp_exists(param, v))),
        SpecFuncCall::Atan { arg_y, arg_x } => match sp_eval(*arg_y, v) {
            Some(y) => match sp_eval(*arg_x, v) {
                Some(x) => Some(fbits::atan2_bits(y, x)),
                None => None,
            },
            None => None,
        },
        SpecFuncCall::Unary { name, arg } => match sp_eval(*arg, v) {
            Some(a) => Some(sp_apply_unary(name, a)),
            None => None,
        },
    }
}

/// Substituting evaluation, as the interpreter reads right-hand sides: an
/// unbound parameter reads as `0.0`, so every expression has a value.
pub open spec fn sp_eval_subst(e: SpecExpression, v: VarsView) -> u32
    decreases e,
{
    match e {
        SpecExpression::Lit(b) => b,
        SpecExpression::Param(p) => sp_eval_subst_param(p, v),
        SpecExpression::FuncCall(f) => sp_eval_subst_func(f, v),
        SpecExpression::BinOpExpr { op, left, right } => sp_apply_binop(
            op,
            sp_eval_subst(*left, v),
            sp_eval_subst(*right, v),
        ),
    }
}

/// Substituting parameter read.
pub open spec fn sp_eval_subst_param(p: SpecParam, v: VarsView) -> u32
    decreases p,
{
    match p {
        SpecParam::Numbered(n) => sp_lookup_num(v.numbered, n).unwrap_or(fbits::ZERO_BITS),
        SpecParam::NamedLocal(nm) => sp_lookup_name(v.local, nm).unwrap_or(fbits::ZERO_BITS),
        SpecParam::NamedGlobal(nm) => sp_lookup_name(v.global, nm).unwrap_or(fbits::ZERO_BITS),
        SpecParam::Expr(ie) => sp_lookup_num(
            v.numbered,
            fbits::trunc_u32_of(sp_eval_subst(*ie, v)),
        ).unwrap_or(fbits::ZERO_BITS),
    }
}

/// Substituting function-call evaluation.
pub open spec fn sp_eval_subst_func(f: SpecFuncCall, v: VarsView) -> u32
    decreases f,
{
    match f {
        SpecFuncCall::Exists { param } => fbits::bool_bits(sp_exists(param, v)),
        SpecFuncCall::Atan { arg_y, arg_x } => fbits::atan2_bits(
            sp_eval_subst(*arg_y, v),
            sp_eval_subst(*arg_x, v),
        ),
        SpecFuncCall::Unary { name, arg } => sp_apply_unary(name, sp_eval_subst(*arg, v)),
    }
}

/// An optional value's bit pattern.
pub open spec fn opt_bits(r: Option<FloatBits>) -> Option<u32> {
    match r {
        Some(b) => Some(b.0),
        None => None,
    }
}

/// What an evaluation reads: the variable stores, with an advisory flag
/// saying whether a parser may fold constants against this context.
pub trait EvalContext {
    /// The variable environment as the contracts see it.
    spec fn vars(&self) -> VarsView;

    /// Whether a parser may reduce fully evaluable sub-expressions at parse
    /// time; advisory only.
    fn const_fold(&self) -> bool;

    /// Read a numbered variable.
    fn get_numbered(&self, n: u32) -> (r: Option<FloatBits>)
        ensures
            opt_bits(r) == sp_lookup_num(self.vars().numbered, n),
    ;

    /// Read a named local variable (name pre-normalized).
    fn get_local(&self, name: &String) -> (r: Option<FloatBits>)
        ensures
            opt_bits(r) == sp_lookup_name(self.vars().local, name@),
    ;

    /// Read a named global variable (name pre-normalized).
    fn get_global(&self, name: &String) -> (r: Option<FloatBits>)
        ensures
            opt_bits(r) == sp_lookup_name(self.vars().global, name@),
    ;

    /// Whether a named parameter is bound.
    fn named_param_exists(&self, p: &NamedParam) -> (r: bool)
        ensures
            r == sp_exists(p@, self.vars()),
    ;
}

/// Apply one unary function to its evaluated argument.
pub fn apply_unary(name: UnaryFuncName, a: FloatBits) -> (r: FloatBits)
    ensures
        r.0 == sp_apply_unary(name, a.0),
{
    match name {
        UnaryFuncName::Abs => fbits::abs_exec(a),
        UnaryFuncName::Acos => fbits::acos(a),
        UnaryFuncName::Asin => {
            if fbits::asin_call_ok_exec(a) {
                fbits::asin(a)
            } else {
                FloatBits(fbits::QNAN_BITS)
            }
        },
        UnaryFuncName::Cos => fbits::cos(a),
        UnaryFuncName::Exp => {
            if fbits::exp_call_ok_exec(a) {
                fbits::exp(a)
            } else if a.0 & fbits::SIGN_CLEAR_MASK > fbits::INF_BITS {
                FloatBits(fbits::QNAN_BITS)
            } else {
                FloatBits(fbits::INF_BITS)
            }
        },
        UnaryFuncName::Fix => fbits::floor(a),
        UnaryFuncName::Fup => fbits::ceil(a),
        UnaryFuncName::Round => fbits::round(a),
        UnaryFuncName::Ln => {
            if fbits::ln_call_ok_exec(a) {
                fbits::ln(a)
            } else {
                FloatBits(fbits::QNAN_BITS)
            }
        },
        UnaryFuncName::Sin => fbits::sin(a),
        UnaryFuncName::Sqrt => fbits::sqrt(a),
        UnaryFuncName::Tan => fbits::tan(a),
    }
}

/// Strict parameter read.
pub fn eval_param<C: EvalContext>(p: &Param, context: &C) -> (r: Option<FloatBits>)
    ensures
        opt_bits(r) == sp_eval_param(p@, context.vars()),
    decreases *p,
{
    match p {
        Param::Numbered(n) => context.get_numbered(*n),
        Param::NamedLocal(nm) => context.get_local(nm),
        Param::NamedGlobal(nm) => context.get_global(nm),
        Param::Expr(ie) => match (**ie).eval(context) {
            Some(b) => context.get_numbered(fbits::trunc_u32(b)),
            None => None,
        },
    }
}

impl Expression {
    /// Strict evaluation against a context: the value, or `None` when any
    /// parameter read along the way is unbound.
    pub fn eval<C: EvalContext>(&self, context: &C) -> (r: Option<FloatBits>)
        ensures
            opt_bits(r) == sp_eval(self@, context.vars()),
        decreases *self,
    {
        match self {
            Expression::Lit(b) => Some(*b),
            Expression::Param(p) => eval_param(p, context),
            Expression::FuncCall(f) => f.eval(context),
            Expression::BinOpExpr { op, left, right } => match (**left).eval(context) {
                Some(a) => match (**right).eval(context) {
                    Some(b) => Some(apply_binop(*op, a, b)),
                    None => None,
                },
                None => None,
            },
        }
    }

    /// Substituting evaluation against a context: unbound parameters read
    /// as `0.0`, so this is total.
    pub fn eval_subst<C: EvalContext>(&self, context: &C) -> (r: FloatBits)
        ensures
            r.0 == sp_eval_subst(self@, context.vars()),
        decreases *self,
    {
        match self {
            Expression::Lit(b) => *b,
            Expression::Param(p) => eval_subst_param(p, context),
            Expression::FuncCall(f) => eval_subst_func(f, context),
            Expression::BinOpExpr { op, left, right } => {
                let a = (**left).eval_subst(context);
                let b = (**right).eval_subst(context);
                apply_binop(*op, a, b)
            },
        }
    }
}

/// Substituting function-call evaluation.
pub fn eval_subst_func<C: EvalContext>(f: &FuncCall, context: &C) -> (r: FloatBits)
    ensures
        r.0 == sp_eval_subst_func(f@, context.vars()),
    decreases *f,
{
    match f {
        FuncCall::Exists { param } => fbits::bool_to_float(context.named_param_exists(param)),
        FuncCall::Atan { arg_y, arg_x } => {
            let y = (**arg_y).eval_subst(context);
            let x = (**arg_x).eval_subst(context);
            fbits::atan2(y, x)
        },
        FuncCall::Unary { name, arg } => apply_unary(*name, (**arg).eval_subst(context)),
    }
}

/// Substituting parameter read.
pub fn eval_subst_param<C: EvalContext>(p: &Param, context: &C) -> (r: FloatBits)
    ensures
        r.0 == sp_eval_subst_param(p@, context.vars()),
    decreases *p,
{
    let read = match p {
        Param::Numbered(n) => context.get_numbered(*n),
        Param::NamedLocal(nm) => context.get_local(nm),
        Param::NamedGlobal(nm) => context.get_global(nm),
        Param::Expr(ie) => {
            let idx = fbits::trunc_u32((**ie).eval_subst(context));
            context.get_numbered(idx)
        },
    };
    match read {
        Some(b) => b,
        None => FloatBits(fbits::ZERO_BITS),
    }
}

impl FuncCall {
    /// Strict evaluation of a function call.
    pub fn eval<C: EvalContext>(&self, context: &C) -> (r: Option<FloatBits>)
        ensures
            opt_bits(r) == sp_eval_func(self@, context.vars()),
        decreases *self,
    {
        match self {
            FuncCall::Exists { param } => Some(
                fbits::bool_to_float(context.named_param_exists(param)),
            ),
            FuncCall::Atan { arg_y, arg_x } => match (**arg_y).eval(context) {
                Some(y) => match (**arg_x).eval(context) {
                    Some(x) => Some(fbits::atan2(y, x)),
                    None => None,
                },
                None => None,
            },
            FuncCall::Unary { name, arg } => match (**arg).eval(context) {
                Some(a) => Some(apply_unary(*name, a)),
                None => None,
            },
        }
    }
}

impl BinOp {
    /// Strictly evaluate both operands, then apply this operator.
    pub fn eval<C: EvalContext>(
        &self,
        left: &Expression,
        right: &Expression,
        context: &C,
    ) -> (r: Option<FloatBits>)
        ensures
            opt_bits(r) == sp_eval(
                SpecExpression::BinOpExpr {
                    op: *self,
                    left: Box::new(left@),
                    right: Box::new(right@),
                },
                context.vars(),
            ),
    {
        match left.eval(context) {
            Some(a) => match right.eval(context) {
                Some(b) => Some(apply_binop(*self, a, b)),
                None => None,
            },
            None => None,
        }
    }
}

} // verus!
