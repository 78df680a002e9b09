//! The expression tree: literals, parameters, function calls and
//! binary-operator applications, plus the sorted operator lists the
//! expression parser works from.

use vstd::prelude::*;

use crate::binop::{spelling, BinOp};
use crate::fbits::FloatBits;

verus! {

/// A machine-variable reference.
///
/// Named identifiers are stored lowercased with internal whitespace removed;
/// a leading underscore marks a global.  `Expr` is an indirect reference:
/// the sub-expression's value, truncated to an integer, is the numbered
/// index referred to.
#[derive(Debug, PartialEq)]
pub enum Param {
    NamedLocal(String),
    NamedGlobal(String),
    Numbered(u32),
    Expr(Box<Expression>),
}

/// The named-parameter projection of [`Param`], used by `EXISTS`.
#[derive(Debug, PartialEq)]
pub enum NamedParam {
    NamedLocal(String),
    NamedGlobal(String),
}

/// The numbered-parameter projection of [`Param`].
#[derive(Debug, PartialEq)]
pub enum NumberedParam {
    Numbered(u32),
    Expr(Box<Expression>),
}

/// Name of a unary function: `FIX` is floor, `FUP` is ceil, `ROUND` rounds
/// half away from zero; the rest have their usual meanings.
#[derive(Clone, Copy, PartialEq, Eq, Structural, Debug)]
pub enum UnaryFuncName {
    Abs,
    Acos,
    Asin,
    Cos,
    Exp,
    Fix,
    Fup,
    Round,
    Ln,
    Sin,
    Sqrt,
    Tan,
}

/// A function-call expression.
#[derive(Debug, PartialEq)]
pub enum FuncCall {
    /// `EXISTS[#<name>]`: `1.0` iff the name is bound in its scope.
    Exists { param: NamedParam },
    /// `ATAN[y]/[x]`: the four-quadrant arctangent of `y / x`.
    Atan { arg_y: Box<Expression>, arg_x: Box<Expression> },
    /// `NAME[arg]`.
    Unary { name: UnaryFuncName, arg: Box<Expression> },
}

/// An expression: a literal, a parameter reference, a function call, or a
/// binary operator applied to two sub-expressions.
#[derive(Debug, PartialEq)]
pub enum Expression {
    Lit(FloatBits),
    Param(Param),
    FuncCall(FuncCall),
    BinOpExpr { op: BinOp, left: Box<Expression>, right: Box<Expression> },
}

impl Clone for Expression {
    /// A deep copy equal to the original.
    fn clone(&self) -> (r: Self)
        ensures
            r == *self,
        decreases *self,
    {
        match self {
            Expression::Lit(v) => Expression::Lit(*v),
            Expression::Param(p) => Expression::Param(p.clone()),
            Expression::FuncCall(f) => Expression::FuncCall(f.clone()),
            Expression::BinOpExpr { op, left, right } => Expression::BinOpExpr {
                op: *op,
                left: Box::new((**left).clone()),
                right: Box::new((**right).clone()),
            },
        }
    }
}

impl Clone for Param {
    /// A deep copy equal to the original.
    fn clone(&self) -> (r: Self)
        ensures
            r == *self,
        decreases *self,
    {
        match self {
            Param::NamedLocal(s) => Param::NamedLocal(s.clone()),
            Param::NamedGlobal(s) => Param::NamedGlobal(s.clone()),
            Param::Numbered(n) => Param::Numbered(*n),
            Param::Expr(e) => Param::Expr(Box::new((**e).clone())),
        }
    }
}

impl Clone for NamedParam {
    /// A deep copy equal to the original.
    fn clone(&self) -> (r: Self)
        ensures
            r == *self,
    {
        match self {
            NamedParam::NamedLocal(s) => NamedParam::NamedLocal(s.clone()),
            NamedParam::NamedGlobal(s) => NamedParam::NamedGlobal(s.clone()),
        }
    }
}

impl Clone for NumberedParam {
    /// A deep copy equal to the original.
    fn clone(&self) -> (r: Self)
        ensures
            r == *self,
        decreases *self,
    {
        match self {
            NumberedParam::Numbered(n) => NumberedParam::Numbered(*n),
            NumberedParam::Expr(e) => NumberedParam::Expr(Box::new((**e).clone())),
        }
    }
}

impl Clone for FuncCall {
    /// A deep copy equal to the original.
    fn clone(&self) -> (r: Self)
        ensures
            r == *self,
        decreases *self,
    {
        match self {
            FuncCall::Exists { param } => FuncCall::Exists { param: param.clone() },
            FuncCall::Atan { arg_y, arg_x } => FuncCall::Atan {
                arg_y: Box::new((**arg_y).clone()),
                arg_x: Box::new((**arg_x).clone()),
            },
            FuncCall::Unary { name, arg } => FuncCall::Unary {
                name: *name,
                arg: Box::new((**arg).clone()),
            },
        }
    }
}

impl Expression {
    pub fn lit(val: FloatBits) -> (r: Self)
        ensures
            r == Expression::Lit(val),
    {
        Self::Lit(val)
    }

    pub fn param(param: Param) -> (r: Self)
        ensures
            r == Expression::Param(param),
    {
        Self::Param(param)
    }

    pub fn func_call(func_call: FuncCall) -> (r: Self)
        ensures
            r == Expression::FuncCall(func_call),
    {
        Self::FuncCall(func_call)
    }

    pub fn binop(op: BinOp, left: Expression, right: Expression) -> (r: Self)
        ensures
            r == (Expression::BinOpExpr { op, left: Box::new(left), right: Box::new(right) }),
    {
        Self::BinOpExpr { op, left: Box::new(left), right: Box::new(right) }
    }
}

impl Param {
    pub fn named_local(val: String) -> (r: Self)
        ensures
            r == Param::NamedLocal(val),
    {
        Self::NamedLocal(val)
    }

    pub fn named_global(val: String) -> (r: Self)
        ensures
            r == Param::NamedGlobal(val),
    {
        Self::NamedGlobal(val)
    }

    pub fn numbered(val: u32) -> (r: Self)
        ensures
            r == Param::Numbered(val),
    {
        Self::Numbered(val)
    }

    pub fn expr(expr: Expression) -> (r: Self)
        ensures
            r == Param::Expr(Box::new(expr)),
    {
        Self::Expr(Box::new(expr))
    }
}

impl NamedParam {
    pub fn named_local(val: String) -> (r: Self)
        ensures
            r == NamedParam::NamedLocal(val),
    {
        Self::NamedLocal(val)
    }

    pub fn named_global(val: String) -> (r: Self)
        ensures
            r == NamedParam::NamedGlobal(val),
    {
        Self::NamedGlobal(val)
    }

    /// The same reference as a general [`Param`].
    pub fn to_param(&self) -> (r: Param)
        ensures
            r == sp_named_to_param(*self),
    {
        match self {
            NamedParam::NamedLocal(s) => Param::NamedLocal(s.clone()),
            NamedParam::NamedGlobal(s) => Param::NamedGlobal(s.clone()),
        }
    }
}

/// The general parameter a named parameter stands for.
pub open spec fn sp_named_to_param(p: NamedParam) -> Param {
    match p {
        NamedParam::NamedLocal(s) => Param::NamedLocal(s),
        NamedParam::NamedGlobal(s) => Param::NamedGlobal(s),
    }
}

impl NumberedParam {
    pub fn numbered(val: u32) -> (r: Self)
        ensures
            r == NumberedParam::Numbered(val),
    {
        Self::Numbered(val)
    }

    pub fn expr(expr: Expression) -> (r: Self)
        ensures
            r == NumberedParam::Expr(Box::new(expr)),
    {
        Self::Expr(Box::new(expr))
    }

    /// The same reference as a general [`Param`].
    pub fn to_param(self) -> (r: Param)
        ensures
            r == sp_numbered_to_param(self),
    {
        match self {
            NumberedParam::Numbered(n) => Param::Numbered(n),
            NumberedParam::Expr(e) => Param::Expr(e),
        }
    }
}

/// The general parameter a numbered parameter stands for.
pub open spec fn sp_numbered_to_param(p: NumberedParam) -> Param {
    match p {
        NumberedParam::Numbered(n) => Param::Numbered(n),
        NumberedParam::Expr(e) => Param::Expr(e),
    }
}

impl FuncCall {
    pub fn atan(arg_y: Box<Expression>, arg_x: Box<Expression>) -> (r: Self)
        ensures
            r == (FuncCall::Atan { arg_y, arg_x }),
    {
        Self::Atan { arg_y, arg_x }
    }

    pub fn exists_call(param: NamedParam) -> (r: Self)
        ensures
            r == (FuncCall::Exists { param }),
    {
        Self::Exists { param }
    }

    pub fn unary(name: UnaryFuncName, arg: Box<Expression>) -> (r: Self)
        ensures
            r == (FuncCall::Unary { name, arg }),
    {
        Self::Unary { name, arg }
    }
}

/// Operators ordered by weakly decreasing spelling length, so that within a
/// precedence level a longer spelling is always tried before its prefixes
/// (`**` before `*`).
pub open spec fn sorted_desc(s: Seq<BinOp>) -> bool {
    forall|i: int, j: int|
        0 <= i < j < s.len() ==> (#[trigger] spelling(s[i])).len() >= (#[trigger] spelling(
            s[j],
        )).len()
}

/// The subsequence of operators whose spelling has the given length, in
/// their original order.
pub open spec fn keep_len(s: Seq<BinOp>, n: nat) -> Seq<BinOp>
    decreases s.len(),
{
    if s.len() == 0 {
        Seq::empty()
    } else {
        (if spelling(s[0]).len() == n {
            seq![s[0]]
        } else {
            Seq::empty()
        }) + keep_len(s.drop_first(), n)
    }
}

/// Splitting a sequence splits its length-filtered subsequence.
proof fn lemma_keep_len_add(a: Seq<BinOp>, b: Seq<BinOp>, n: nat)
    ensures
        keep_len(a + b, n) == keep_len(a, n) + keep_len(b, n),
    decreases a.len(),
{
    if a.len() == 0 {
        assert(a + b =~= b);
        assert(keep_len(a, n) + keep_len(b, n) =~= keep_len(b, n));
    } else {
        lemma_keep_len_add(a.drop_first(), b, n);
        assert((a + b).drop_first() =~= a.drop_first() + b);
        assert((a + b)[0] == a[0]);
        assert(keep_len(a + b, n) =~= keep_len(a, n) + keep_len(b, n));
    }
}

/// A sequence without length-`n` spellings filters to nothing.
proof fn lemma_keep_len_none(s: Seq<BinOp>, n: nat)
    requires
        forall|k: int| 0 <= k < s.len() ==> (#[trigger] spelling(s[k])).len() != n,
    ensures
        keep_len(s, n) == Seq::<BinOp>::empty(),
    decreases s.len(),
{
    if s.len() > 0 {
        assert(spelling(s[0]).len() != n);
        assert forall|k: int| 0 <= k < s.drop_first().len() implies (#[trigger] spelling(
            s.drop_first()[k],
        )).len() != n by {
            assert(s.drop_first()[k] == s[k + 1]);
        }
        lemma_keep_len_none(s.drop_first(), n);
        assert(keep_len(s, n) =~= Seq::<BinOp>::empty());
    }
}

/// One element filters to itself or to nothing.
proof fn lemma_keep_len_one(x: BinOp, n: nat)
    ensures
        keep_len(seq![x], n) == (if n == spelling(x).len() {
            seq![x]
        } else {
            Seq::<BinOp>::empty()
        }),
{
    assert(seq![x].drop_first() =~= Seq::<BinOp>::empty());
    assert(keep_len(Seq::<BinOp>::empty(), n) =~= Seq::<BinOp>::empty());
    assert(keep_len(seq![x].drop_first(), n) == keep_len(Seq::<BinOp>::empty(), n));
    if n == spelling(x).len() {
        assert(keep_len(seq![x], n) =~= seq![x]);
    } else {
        assert(keep_len(seq![x], n) =~= Seq::<BinOp>::empty());
    }
}

/// Inserting an element after everything longer and before everything
/// shorter appends it to its own length class and leaves the others
/// alone.
proof fn lemma_keep_len_insert(s: Seq<BinOp>, j: int, x: BinOp, n: nat)
    requires
        0 <= j <= s.len(),
        forall|k: int| j <= k < s.len() ==> (#[trigger] spelling(s[k])).len() < spelling(
            x,
        ).len(),
    ensures
        keep_len(s.insert(j, x), n) == if n == spelling(x).len() {
            keep_len(s, n).push(x)
        } else {
            keep_len(s, n)
        },
{
    let pre = s.subrange(0, j);
    let suf = s.subrange(j, s.len() as int);
    let t = s.insert(j, x);
    assert(t =~= pre + seq![x] + suf);
    assert(s =~= pre + suf);
    lemma_keep_len_add(pre + seq![x], suf, n);
    lemma_keep_len_add(pre, seq![x], n);
    lemma_keep_len_add(pre, suf, n);
    lemma_keep_len_one(x, n);
    if n == spelling(x).len() {
        assert forall|k: int| 0 <= k < suf.len() implies (#[trigger] spelling(
            suf[k],
        )).len() != n by {
            assert(suf[k] == s[j + k]);
        }
        lemma_keep_len_none(suf, n);
        assert(keep_len(t, n) =~= keep_len(s, n).push(x));
    } else {
        assert(keep_len(t, n) =~= keep_len(s, n));
    }
}

/// Sort an operator list by weakly decreasing spelling length.
///
/// The sort is stable — operators of equal spelling length keep their
/// relative input order, stated through `keep_len` — and a list that is
/// already sorted comes back unchanged, so sorting is idempotent.
pub fn sort_bin_ops(list: Vec<BinOp>) -> (r: Vec<BinOp>)
    ensures
        sorted_desc(r@),
        r@.to_multiset() == list@.to_multiset(),
        sorted_desc(list@) ==> r@ == list@,
        forall|n: nat| #[trigger] keep_len(r@, n) == keep_len(list@, n),
{
    let mut out: Vec<BinOp> = Vec::new();
    let mut i: usize = 0;
    proof {
        assert(out@ =~= list@.subrange(0, 0));
    }
    while i < list.len()
        invariant
            i <= list@.len(),
            sorted_desc(out@),
            out@.to_multiset() == list@.subrange(0, i as int).to_multiset(),
            out@.len() == i,
            sorted_desc(list@) ==> out@ == list@.subrange(0, i as int),
            forall|n: nat| #[trigger] keep_len(out@, n) == keep_len(
                list@.subrange(0, i as int),
                n,
            ),
        decreases list@.len() - i,
    {
        let x = list[i];
        let xlen = x.to_value().len();
        // find the first slot whose spelling is strictly shorter
        let mut j: usize = 0;
        while j < out.len() && out[j].to_value().len() >= xlen
            invariant
                j <= out@.len(),
                xlen == spelling(x).len(),
                forall|k: int| 0 <= k < j ==> (#[trigger] spelling(out@[k])).len() >= xlen,
            decreases out@.len() - j,
        {
            j += 1;
        }
        let ghost out0 = out@;
        proof {
            assert(j < out@.len() ==> spelling(out@[j as int]).len() < spelling(x).len());
            lemma_insert_to_multiset(out@, j as int, x);
            assert(list@.subrange(0, i as int).push(x) =~= list@.subrange(0, i + 1));
            list@.subrange(0, i as int).to_multiset_ensures();
            if sorted_desc(list@) {
                // every element so far spells at least as long as x, so x goes last
                assert(forall|k: int|
                    0 <= k < i ==> (#[trigger] spelling(list@[k])).len() >= spelling(x).len());
                assert(j == out@.len());
            }
            // everything at or after the insertion point spells shorter than x
            assert forall|k: int| j <= k < out0.len() implies (#[trigger] spelling(
                out0[k],
            )).len() < spelling(x).len() by {
                assert(spelling(out0[j as int]).len() >= spelling(out0[k]).len());
            }
        }
        out.insert(j, x);
        proof {
            if sorted_desc(list@) {
                assert(out@ =~= list@.subrange(0, i + 1));
            }
            assert forall|n: nat| #[trigger] keep_len(out@, n) == keep_len(
                list@.subrange(0, i + 1),
                n,
            ) by {
                lemma_keep_len_insert(out0, j as int, x, n);
                lemma_keep_len_add(list@.subrange(0, i as int), seq![x], n);
                assert(list@.subrange(0, i + 1) =~= list@.subrange(0, i as int) + seq![x]);
                lemma_keep_len_one(x, n);
                if n == spelling(x).len() {
                    assert(keep_len(list@.subrange(0, i as int), n).push(x) =~= keep_len(
                        list@.subrange(0, i as int),
                        n,
                    ) + seq![x]);
                } else {
                    assert(keep_len(list@.subrange(0, i as int), n) + Seq::<BinOp>::empty()
                        =~= keep_len(list@.subrange(0, i as int), n));
                }
            }
        }
        i += 1;
    }
    proof {
        assert(list@.subrange(0, list@.len() as int) =~= list@);
    }
    out
}

/// Inserting anywhere adds one occurrence to the multiset of a sequence.
proof fn lemma_insert_to_multiset(s: Seq<BinOp>, j: int, x: BinOp)
    requires
        0 <= j <= s.len(),
    ensures
        s.insert(j, x).to_multiset() == s.to_multiset().insert(x),
    decreases s.len(),
{
    let ins = s.insert(j, x);
    ins.to_multiset_ensures();
    s.to_multiset_ensures();
    assert(ins.remove(j) =~= s);
    assert(ins.remove(j).to_multiset() =~= ins.to_multiset().remove(ins[j]));
    assert(ins[j] == x);
    assert(ins.to_multiset().contains(x)) by {
        assert(ins.contains(x)) by {
            assert(ins[j] == x);
        }
    }
    assert(ins.to_multiset() =~= s.to_multiset().insert(x)) by {
        assert(ins.to_multiset().remove(x) == s.to_multiset());
        assert forall|a: BinOp| ins.to_multiset().count(a) == s.to_multiset().insert(x).count(
            a,
        ) by {
            if a == x {
                assert(ins.to_multiset().count(x) >= 1);
                assert(ins.to_multiset().remove(x).count(x) == ins.to_multiset().count(x) - 1);
            } else {
                assert(ins.to_multiset().remove(x).count(a) == ins.to_multiset().count(a));
            }
        }
    }
}

/// An operator list kept sorted by descending spelling length.
#[derive(Debug)]
pub struct BinOpArray {
    ops: Vec<BinOp>,
}

impl BinOpArray {
    /// The list held is always sorted by descending spelling length.
    #[verifier::type_invariant]
    spec fn wf(self) -> bool {
        sorted_desc(self.ops@)
    }
}

impl View for BinOpArray {
    type V = Seq<BinOp>;

    closed spec fn view(&self) -> Seq<BinOp> {
        self.ops@
    }
}

/// Something that offers a sorted operator list for one precedence level.
pub trait BinOpList {
    /// The operator list as the contracts see it.
    spec fn sp_ops(&self) -> Seq<BinOp>;

    /// The operators, longest spelling first.
    fn op_list(&self) -> (r: &Vec<BinOp>)
        ensures
            sorted_desc(r@),
            r@ == self.sp_ops(),
    ;
}

impl BinOpArray {
    /// Build a level's operator array; the list is sorted here (stably),
    /// so callers may hand the operators in any order.
    pub fn from_list(list: Vec<BinOp>) -> (r: Self)
        ensures
            sorted_desc(r@),
            r@.to_multiset() == list@.to_multiset(),
            sorted_desc(list@) ==> r@ == list@,
            forall|n: nat| #[trigger] keep_len(r@, n) == keep_len(list@, n),
    {
        let ops = sort_bin_ops(list);
        Self { ops }
    }

    /// The operators held, longest spelling first.
    pub fn ops(&self) -> (r: &Vec<BinOp>)
        ensures
            sorted_desc(r@),
            r@ == self@,
    {
        proof {
            use_type_invariant(self);
        }
        &self.ops
    }
}

impl BinOpList for BinOpArray {
    open spec fn sp_ops(&self) -> Seq<BinOp> {
        self@
    }

    fn op_list(&self) -> (r: &Vec<BinOp>)
        ensures
            r@ == self@,
    {
        proof {
            use_type_invariant(self);
        }
        &self.ops
    }
}

} // verus!
