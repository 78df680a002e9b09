//! Canonical rendering of literal-only expressions, with two grammar
//! laws proved over the parser model: parsing a rendering yields the
//! expression back, and an unbracketed `a OP1 b OP2 c` associates by the
//! precedence ladder.
//!
//! The rendering brackets every operator application, so it re-parses
//! without any appeal to precedence: `Add(1.5, Mul(2, 3))` renders as
//! `[1.5 + [2 * 3]]`.

use vstd::prelude::*;

use crate::binop::{level_ops, level_of, spelling, BinOp};
use crate::expression::Expression;
use crate::fbits::is_finite_bits;
use crate::lex::{
    alpha_end, digits_end, float_end, is_alpha, is_digit, is_space, lower, matches_ci_at, ws_at,
};
use crate::parse_expression::{
    clamp, sp_atom, sp_binop_level, sp_chain, sp_expr_level, sp_expression, sp_factor,
    sp_func_call, sp_func_name_at, sp_group, sp_match_op_at, sp_op_from_list, sp_param,
};
use crate::spec_ast::SpecExpression;
use crate::text::{decimal_of_f32, f32_of_literal, render_f32};

verus! {

/// An expression of literals and operators alone: no parameters, no
/// function calls.
pub open spec fn lit_only(e: SpecExpression) -> bool
    decreases e,
{
    match e {
        SpecExpression::Lit(_) => true,
        SpecExpression::BinOpExpr { op, left, right } => lit_only(*left) && lit_only(*right),
        _ => false,
    }
}

/// Every literal in the expression is finite (no infinities, no NaN).
pub open spec fn lits_finite(e: SpecExpression) -> bool
    decreases e,
{
    match e {
        SpecExpression::Lit(b) => is_finite_bits(b),
        SpecExpression::BinOpExpr { op, left, right } => lits_finite(*left) && lits_finite(
            *right,
        ),
        _ => true,
    }
}

/// The canonical rendering: a literal is its decimal text, an operator
/// application is `[`, the left rendering, a space, the spelling, a
/// space, the right rendering, `]`.
pub open spec fn sp_render(e: SpecExpression) -> Seq<u8>
    decreases e,
{
    match e {
        SpecExpression::Lit(b) => decimal_of_f32(b),
        SpecExpression::BinOpExpr { op, left, right } => seq![91u8] + sp_render(*left) + seq![
            32u8,
        ] + spelling(op) + seq![32u8] + sp_render(*right) + seq![93u8],
        _ => Seq::empty(),
    }
}

impl Expression {
    /// Render a literal-only expression canonically.  The second clause
    /// hands callers what the renderer's trusted contract gives for each
    /// literal, so that with finite literals `lemma_render_round_trip`
    /// applies to the returned bytes.
    pub fn render(&self) -> (r: Vec<u8>)
        requires
            lit_only(self@),
        ensures
            r@ == sp_render(self@),
            lits_finite(self@) ==> lit_facts(self@),
        decreases *self,
    {
        match self {
            Expression::Lit(b) => render_f32(*b),
            Expression::BinOpExpr { op, left, right } => {
                let mut v: Vec<u8> = Vec::new();
                v.push(91);
                let mut lv = (**left).render();
                v.append(&mut lv);
                v.push(32);
                let mut ov = op.to_value();
                v.append(&mut ov);
                v.push(32);
                let mut rv = (**right).render();
                v.append(&mut rv);
                v.push(93);
                proof {
                    assert(v@ =~= sp_render(self@));
                }
                v
            },
            Expression::Param(_) => {
                proof {
                    assert(false);
                }
                Vec::new()
            },
            Expression::FuncCall(_) => {
                proof {
                    assert(false);
                }
                Vec::new()
            },
        }
    }
}

/// A digit run embedded in a longer input, with no digit just past the
/// window, scans to the corresponding place.
proof fn lemma_digits_embed(s: Seq<u8>, i: int, t: Seq<u8>, x: int)
    requires
        0 <= i,
        i + t.len() <= s.len(),
        s.subrange(i, i + t.len()) == t,
        0 <= x <= t.len(),
        i + t.len() == s.len() || !is_digit(s[i + t.len()]),
    ensures
        digits_end(s, i + x) == i + digits_end(t, x),
    decreases t.len() - x,
{
    crate::lex::lemma_digits_end_bounds(t, x);
    if x < t.len() {
        assert(s[i + x] == t[x]) by {
            assert(s.subrange(i, i + t.len())[x] == s[i + x]);
        }
        if is_digit(t[x]) {
            lemma_digits_embed(s, i, t, x + 1);
        }
    }
}

/// The first byte of a float literal is a sign, a digit or a point.
proof fn lemma_lit_first_byte(t: Seq<u8>)
    requires
        t.len() > 0,
        float_end(t, 0) == t.len(),
    ensures
        t[0] == 43 || t[0] == 45 || t[0] == 46 || is_digit(t[0]),
        !is_alpha(t[0]),
        !is_space(t[0]),
        t[0] != 35 && t[0] != 91 && t[0] != 93 && t[0] != 60,
{
    crate::lex::lemma_digits_end_bounds(t, 0);
    if !(t[0] == 43 || t[0] == 45 || t[0] == 46) {
        if !is_digit(t[0]) {
            assert(digits_end(t, 0) == 0);
            assert(float_end(t, 0) == 0);
        }
    }
}

/// A whole float literal embedded in a longer input, followed by a space,
/// a `]` or the end, scans to exactly its end.
proof fn lemma_float_embed(s: Seq<u8>, i: int, t: Seq<u8>)
    requires
        0 <= i,
        i + t.len() <= s.len(),
        s.subrange(i, i + t.len()) == t,
        t.len() > 0,
        float_end(t, 0) == t.len(),
        i + t.len() == s.len() || is_space(s[i + t.len()]) || s[i + t.len()] == 93,
    ensures
        float_end(s, i) == i + t.len(),
{
    let n = t.len() as int;
    assert forall|x: int| 0 <= x < n implies s[i + x] == t[x] by {
        assert(s.subrange(i, i + n)[x] == s[i + x]);
    }
    assert(i + n == s.len() || !is_digit(s[i + n]));
    let ms = if t[0] == 43 || t[0] == 45 {
        1int
    } else {
        0int
    };
    lemma_digits_embed(s, i, t, ms);
    crate::lex::lemma_digits_end_bounds(t, ms);
    let de = digits_end(t, ms);
    if de > ms {
        if de < n {
            assert(t[de] == 46);
            lemma_digits_embed(s, i, t, de + 1);
        } else {
            assert(i + de == s.len() || s[i + de] != 46);
        }
    } else {
        assert(ms < n && t[ms] == 46 && digits_end(t, ms + 1) > ms + 1);
        lemma_digits_embed(s, i, t, ms + 1);
    }
}

/// At a literal's start no function call and no parameter can begin, so
/// the atom is the literal itself.
proof fn lemma_atom_lit(s: Seq<u8>, i: int, t: Seq<u8>)
    requires
        0 <= i,
        i + t.len() <= s.len(),
        s.subrange(i, i + t.len()) == t,
        t.len() > 0,
        float_end(t, 0) == t.len(),
        i + t.len() == s.len() || is_space(s[i + t.len()]) || s[i + t.len()] == 93,
    ensures
        sp_atom(s, i) == Some(
            (SpecExpression::Lit(f32_of_literal(t)), i + t.len()),
        ),
{
    lemma_lit_first_byte(t);
    assert(s[i] == t[0]) by {
        assert(s.subrange(i, i + t.len() as int)[0] == s[i]);
    }
    assert(ws_at(s, i) == i);
    assert(lower(s[i]) == s[i]);
    assert(!matches_ci_at(s, i, seq![65u8, 84u8, 65u8, 78u8])) by {
        if matches_ci_at(s, i, seq![65u8, 84u8, 65u8, 78u8]) {
            assert(lower(s[i + 0]) == lower(seq![65u8, 84u8, 65u8, 78u8][0]));
        }
    }
    assert(!matches_ci_at(s, i, seq![69u8, 88u8, 73u8, 83u8, 84u8, 83u8])) by {
        if matches_ci_at(s, i, seq![69u8, 88u8, 73u8, 83u8, 84u8, 83u8]) {
            assert(lower(s[i + 0]) == lower(seq![69u8, 88u8, 73u8, 83u8, 84u8, 83u8][0]));
        }
    }
    assert(alpha_end(s, i) == i);
    assert(sp_func_name_at(s, i) is None);
    assert(sp_func_call(s, i) is None);
    assert(sp_param(s, i) is None);
    lemma_float_embed(s, i, t);
    assert(s.subrange(i, float_end(s, i)) == t);
}

/// No operator of any level matches where the input ends or a `]` stands.
proof fn lemma_ops_fail_at_stop(ops: Seq<BinOp>, s: Seq<u8>, j: int)
    requires
        0 <= j <= s.len(),
        j == s.len() || s[j] == 93,
    ensures
        sp_op_from_list(ops, s, j) is None,
    decreases ops.len(),
{
    if ops.len() > 0 {
        let o = ops[0];
        crate::parse_expression::lemma_spelling_nonempty(o);
        assert(!matches_ci_at(s, j, spelling(o))) by {
            if matches_ci_at(s, j, spelling(o)) {
                assert(j < s.len());
                assert(lower(s[j + 0]) == lower(spelling(o)[0]));
                lemma_spelling_first(o);
            }
        }
        lemma_ops_fail_at_stop(ops.drop_first(), s, j);
    }
}

/// The first byte of every spelling is a letter or one of `* / + -`, and
/// in particular not `]`, not a space and not a digit.
proof fn lemma_spelling_first(o: BinOp)
    ensures
        is_alpha(spelling(o)[0]) || spelling(o)[0] == 42 || spelling(o)[0] == 47 || spelling(
            o,
        )[0] == 43 || spelling(o)[0] == 45,
        lower(spelling(o)[0]) != 93,
        lower(spelling(o)[0]) != 32,
        !is_digit(spelling(o)[0]),
{
}

/// An operator scan at a stop byte fails at every level.
proof fn lemma_level_scan_stops(k: nat, s: Seq<u8>, j: int)
    requires
        0 <= j <= s.len(),
        j == s.len() || s[j] == 93,
    ensures
        sp_binop_level(k, s, j) is None,
{
    assert(ws_at(s, j) == j);
    lemma_ops_fail_at_stop(level_ops(k as int), s, j);
}

/// The fold at any level stops at a stop byte.
proof fn lemma_chain_stops(k: nat, acc: SpecExpression, s: Seq<u8>, j: int)
    requires
        1 <= k,
        0 <= j <= s.len(),
        j == s.len() || s[j] == 93,
    ensures
        sp_chain(k, acc, s, j) == (acc, j),
{
    lemma_level_scan_stops(k, s, j);
}

/// What the renderer's trusted contract says of every literal in the
/// expression: the decimal text is a non-empty float literal that
/// converts back to the same bits.
pub open spec fn lit_facts(e: SpecExpression) -> bool
    decreases e,
{
    match e {
        SpecExpression::Lit(b) => {
            &&& decimal_of_f32(b).len() > 0
            &&& float_end(decimal_of_f32(b), 0) == decimal_of_f32(b).len()
            &&& f32_of_literal(decimal_of_f32(b)) == b
        },
        SpecExpression::BinOpExpr { op, left, right } => lit_facts(*left) && lit_facts(*right),
        _ => true,
    }
}

/// A rendering is never empty, and its first byte is `[` or the head of a
/// literal — never whitespace, a letter, or a byte that could start a
/// parameter or end a group.
proof fn lemma_render_head(e: SpecExpression)
    requires
        lit_only(e),
        lit_facts(e),
    ensures
        sp_render(e).len() > 0,
        !is_space(sp_render(e)[0]),
        !is_alpha(sp_render(e)[0]),
        sp_render(e)[0] != 35 && sp_render(e)[0] != 93 && sp_render(e)[0] != 60,
        sp_render(e)[0] == 91 || sp_render(e)[0] == 43 || sp_render(e)[0] == 45 || sp_render(
            e,
        )[0] == 46 || is_digit(sp_render(e)[0]),
{
    match e {
        SpecExpression::Lit(b) => {
            lemma_lit_first_byte(decimal_of_f32(b));
        },
        _ => {},
    }
}

/// Nothing but horizontal whitespace.
pub open spec fn all_space(s: Seq<u8>) -> bool {
    forall|k: int| 0 <= k < s.len() ==> is_space(#[trigger] s[k])
}

/// Whitespace skipping runs to the end of a whitespace run.
proof fn lemma_ws_at_run(s: Seq<u8>, j: int, e: int)
    requires
        0 <= j <= e <= s.len(),
        forall|k: int| j <= k < e ==> is_space(#[trigger] s[k]),
        e == s.len() || !is_space(s[e]),
    ensures
        ws_at(s, j) == e,
    decreases e - j,
{
    if j < e {
        lemma_ws_at_run(s, j + 1, e);
    }
}

/// What may follow a rendered fragment: the end or a `]`, or — between a
/// left operand and its operator — whitespace, the operator's spelling
/// and more whitespace.
pub open spec fn rt_after(s: Seq<u8>, j: int, bnd: Option<BinOp>) -> bool {
    match bnd {
        None => j == s.len() || s[j] == 93,
        Some(op) => {
            let p = ws_at(s, j);
            &&& j < s.len()
            &&& is_space(s[j])
            &&& p + spelling(op).len() < s.len()
            &&& s.subrange(p, p + spelling(op).len()) == spelling(op)
            &&& is_space(s[p + spelling(op).len()])
        },
    }
}

/// How the rendering of an operator application decomposes, byte by byte.
proof fn lemma_render_decomp(e: SpecExpression)
    requires
        e is BinOpExpr,
    ensures
        ({
            let lr = sp_render(*e->BinOpExpr_left);
            let sp = spelling(e->BinOpExpr_op);
            let rr = sp_render(*e->BinOpExpr_right);
            let t = sp_render(e);
            &&& t.len() == 1 + lr.len() + 1 + sp.len() + 1 + rr.len() + 1
            &&& t[0] == 91
            &&& (forall|y: int| 0 <= y < lr.len() ==> #[trigger] t[1 + y] == lr[y])
            &&& t[1 + lr.len() as int] == 32
            &&& (forall|y: int|
                0 <= y < sp.len() ==> #[trigger] t[2 + lr.len() + y] == sp[y])
            &&& t[2 + lr.len() as int + sp.len() as int] == 32
            &&& (forall|y: int|
                0 <= y < rr.len() ==> #[trigger] t[3 + lr.len() + sp.len() + y] == rr[y])
            &&& t[t.len() - 1] == 93
        }),
{
    let lr = sp_render(*e->BinOpExpr_left);
    let sp = spelling(e->BinOpExpr_op);
    let rr = sp_render(*e->BinOpExpr_right);
    let t = sp_render(e);
    assert(t == seq![91u8] + lr + seq![32u8] + sp + seq![32u8] + rr + seq![93u8]);
    assert forall|y: int| 0 <= y < lr.len() implies #[trigger] t[1 + y] == lr[y] by {
        assert((seq![91u8] + lr)[1 + y] == lr[y]);
    }
    assert forall|y: int| 0 <= y < sp.len() implies #[trigger] t[2 + lr.len() + y] == sp[y] by {
        assert((seq![91u8] + lr + seq![32u8] + sp)[2 + lr.len() + y] == sp[y]);
    }
    assert forall|y: int|
        0 <= y < rr.len() implies #[trigger] t[3 + lr.len() + sp.len() + y] == rr[y] by {
        assert((seq![91u8] + lr + seq![32u8] + sp + seq![32u8] + rr)[3 + lr.len() + sp.len()
            + y] == rr[y]);
    }
}

/// Scanning a level's own operator list where that level's operator is
/// spelled (with a space after it) finds exactly that operator.
proof fn lemma_level_scan_matches(s: Seq<u8>, pos: int, op: BinOp)
    requires
        0 <= pos,
        pos + spelling(op).len() < s.len(),
        s.subrange(pos, pos + spelling(op).len()) == spelling(op),
        is_space(s[pos + spelling(op).len()]),
    ensures
        sp_op_from_list(level_ops(level_of(op)), s, pos) == Some(
            (op, pos + spelling(op).len()),
        ),
{
    let sp = spelling(op);
    assert forall|x: int| 0 <= x < sp.len() implies s[pos + x] == sp[x] by {
        assert(s.subrange(pos, pos + sp.len())[x] == s[pos + x]);
    }
    assert(s[pos] == sp[0]);
    assert(matches_ci_at(s, pos, sp));
    assert(sp_match_op_at(s, pos, op) == Some(pos + sp.len()));
    let ops = level_ops(level_of(op));
    assert forall|q: int| 0 <= q < ops.len() && ops[q] != op implies sp_match_op_at(
        s,
        pos,
        #[trigger] ops[q],
    ) is None by {
        crate::parse_expression::lemma_spelling_nonempty(ops[q]);
        if matches_ci_at(s, pos, spelling(ops[q])) {
            assert(lower(s[pos + 0]) == lower(spelling(ops[q])[0]));
            if spelling(ops[q]).len() >= 2 && sp.len() >= 2 {
                assert(lower(s[pos + 1]) == lower(spelling(ops[q])[1]));
            }
            if spelling(ops[q]).len() >= 2 && sp.len() == 1 {
                // the spelled operator ends here; the candidate would need
                // another byte, but whitespace follows
                assert(lower(s[pos + 1]) == lower(spelling(ops[q])[1]));
                assert(is_space(s[pos + 1]));
            }
        }
    }
    lemma_list_first_match(ops, s, pos, op);
}

/// If one list member matches and every member before it fails, the scan
/// yields that member.
proof fn lemma_list_first_match(ops: Seq<BinOp>, s: Seq<u8>, pos: int, op: BinOp)
    requires
        ops.contains(op),
        sp_match_op_at(s, pos, op) == Some(pos + spelling(op).len()),
        forall|q: int|
            0 <= q < ops.len() && ops[q] != op ==> sp_match_op_at(s, pos, #[trigger] ops[q])
                is None,
    ensures
        sp_op_from_list(ops, s, pos) == Some((op, pos + spelling(op).len())),
    decreases ops.len(),
{
    assert(ops.len() > 0);
    if ops[0] == op {
    } else {
        assert(sp_match_op_at(s, pos, ops[0]) is None);
        let rest = ops.drop_first();
        assert(rest.contains(op)) by {
            let w = choose|w: int| 0 <= w < ops.len() && ops[w] == op;
            assert(rest[w - 1] == op);
        }
        assert forall|q: int|
            0 <= q < rest.len() && rest[q] != op implies sp_match_op_at(
            s,
            pos,
            #[trigger] rest[q],
        ) is None by {
            assert(rest[q] == ops[q + 1]);
        }
        lemma_list_first_match(rest, s, pos, op);
    }
}

/// Scanning a tighter level's operator list where a weaker operator is
/// spelled finds nothing: first bytes differ, except that a lone `*`
/// followed by a space is no `**`.
proof fn lemma_low_scan_fails(k: nat, s: Seq<u8>, pos: int, op: BinOp)
    requires
        1 <= k < level_of(op),
        0 <= pos,
        pos + spelling(op).len() < s.len(),
        s.subrange(pos, pos + spelling(op).len()) == spelling(op),
        is_space(s[pos + spelling(op).len()]),
    ensures
        sp_op_from_list(level_ops(k as int), s, pos) is None,
{
    let sp = spelling(op);
    assert forall|x: int| 0 <= x < sp.len() implies s[pos + x] == sp[x] by {
        assert(s.subrange(pos, pos + sp.len())[x] == s[pos + x]);
    }
    assert(s[pos] == sp[0]);
    let ops = level_ops(k as int);
    assert forall|q: int| 0 <= q < ops.len() implies sp_match_op_at(
        s,
        pos,
        #[trigger] ops[q],
    ) is None by {
        crate::parse_expression::lemma_spelling_nonempty(ops[q]);
        if matches_ci_at(s, pos, spelling(ops[q])) {
            assert(lower(s[pos + 0]) == lower(spelling(ops[q])[0]));
            if spelling(ops[q]).len() >= 2 {
                assert(lower(s[pos + 1]) == lower(spelling(ops[q])[1]));
                if sp.len() == 1 {
                    assert(is_space(s[pos + 1]));
                }
            }
        }
    }
    lemma_list_all_fail(ops, s, pos);
}

/// A list none of whose members match yields nothing.
proof fn lemma_list_all_fail(ops: Seq<BinOp>, s: Seq<u8>, pos: int)
    requires
        forall|q: int| 0 <= q < ops.len() ==> sp_match_op_at(s, pos, #[trigger] ops[q]) is None,
    ensures
        sp_op_from_list(ops, s, pos) is None,
    decreases ops.len(),
{
    if ops.len() > 0 {
        assert forall|q: int|
            0 <= q < ops.drop_first().len() implies sp_match_op_at(
            s,
            pos,
            #[trigger] ops.drop_first()[q],
        ) is None by {
            assert(ops.drop_first()[q] == ops[q + 1]);
        }
        lemma_list_all_fail(ops.drop_first(), s, pos);
    }
}

/// Parsing a rendered fragment at any precedence level consumes exactly
/// the fragment, when what follows is a stop byte or a weaker operator.
proof fn lemma_rt_level(k: nat, e: SpecExpression, s: Seq<u8>, i: int, bnd: Option<BinOp>)
    requires
        k <= 5,
        lit_only(e),
        lits_finite(e),
        lit_facts(e),
        0 <= i <= s.len(),
        ws_at(s, i) + sp_render(e).len() <= s.len(),
        s.subrange(ws_at(s, i), ws_at(s, i) + sp_render(e).len()) == sp_render(e),
        rt_after(s, ws_at(s, i) + sp_render(e).len(), bnd),
        bnd is Some ==> level_of(bnd.unwrap()) > k,
    ensures
        sp_expr_level(k, s, i) == Some((e, ws_at(s, i) + sp_render(e).len())),
    decreases e, 2int, k,
{
    crate::lex::lemma_ws_at_bounds(s, i);
    let w = ws_at(s, i);
    let end = w + sp_render(e).len();
    if k == 0 {
        lemma_rt_factor(e, s, i, bnd);
    } else {
        lemma_rt_level((k - 1) as nat, e, s, i, bnd);
        assert(clamp(end, i, s.len() as int) == end);
        match bnd {
            None => {
                lemma_chain_stops(k, e, s, end);
            },
            Some(op) => {
                // the next operator is weaker than this level, so the fold
                // finds nothing here
                crate::lex::lemma_ws_at_bounds(s, end);
                let p = ws_at(s, end);
                lemma_low_scan_fails(k, s, p, op);
                assert(sp_binop_level(k, s, end) is None);
                assert(sp_chain(k, e, s, end) == (e, end));
            },
        }
    }
}

/// No spelling begins with a space.
proof fn lemma_spelling_not_space(op: BinOp)
    ensures
        spelling(op)[0] != 32,
        !is_space(spelling(op)[0]),
{
}

/// Parsing a rendered fragment as a factor consumes exactly the fragment.
#[verifier::rlimit(100)]
proof fn lemma_rt_factor(e: SpecExpression, s: Seq<u8>, i: int, bnd: Option<BinOp>)
    requires
        lit_only(e),
        lits_finite(e),
        lit_facts(e),
        0 <= i <= s.len(),
        ws_at(s, i) + sp_render(e).len() <= s.len(),
        s.subrange(ws_at(s, i), ws_at(s, i) + sp_render(e).len()) == sp_render(e),
        rt_after(s, ws_at(s, i) + sp_render(e).len(), bnd),
    ensures
        sp_factor(s, i) == Some((e, ws_at(s, i) + sp_render(e).len())),
    decreases e, 1int, 0int,
{
    crate::lex::lemma_ws_at_bounds(s, i);
    let w = ws_at(s, i);
    let t = sp_render(e);
    let end = w + t.len();
    lemma_render_head(e);
    assert forall|x: int| 0 <= x < t.len() implies s[w + x] == t[x] by {
        assert(s.subrange(w, end)[x] == s[w + x]);
    }
    assert(s[w + 0] == t[0]);
    assert(ws_at(s, w) == w);
    assert(end == s.len() || is_space(s[end]) || s[end] == 93) by {
        match bnd {
            None => {},
            Some(op) => {},
        }
    }
    match e {
        SpecExpression::Lit(b) => {
            lemma_atom_lit(s, w, t);
            assert(sp_atom(s, i) == Some((e, end)));
        },
        SpecExpression::BinOpExpr { op, left, right } => {
            lemma_render_decomp(e);
            // the atom fails at the opening bracket
            assert(s[w + 0] == 91);
            assert(lower(s[w]) == 91);
            assert(!matches_ci_at(s, w, seq![65u8, 84u8, 65u8, 78u8])) by {
                if matches_ci_at(s, w, seq![65u8, 84u8, 65u8, 78u8]) {
                    assert(lower(s[w + 0]) == lower(seq![65u8, 84u8, 65u8, 78u8][0]));
                }
            }
            assert(!matches_ci_at(s, w, seq![69u8, 88u8, 73u8, 83u8, 84u8, 83u8])) by {
                if matches_ci_at(s, w, seq![69u8, 88u8, 73u8, 83u8, 84u8, 83u8]) {
                    assert(lower(s[w + 0]) == lower(
                        seq![69u8, 88u8, 73u8, 83u8, 84u8, 83u8][0],
                    ));
                }
            }
            assert(alpha_end(s, w) == w);
            assert(sp_func_call(s, w) is None);
            assert(sp_param(s, w) is None);
            assert(float_end(s, w) == w);
            assert(sp_atom(s, i) is None);
            // the group brackets the operator application
            let lr = sp_render(*left);
            let sp = spelling(op);
            let rr = sp_render(*right);
            let c = w + 1;
            let p_op = c + lr.len() + 1;
            let p_r = p_op + sp.len() + 1;
            let endc = p_r + rr.len();
            assert(s.subrange(c, c + lr.len()) =~= lr) by {
                assert forall|y: int| 0 <= y < lr.len() implies s.subrange(
                    c,
                    c + lr.len(),
                )[y] == lr[y] by {
                    assert(s[w + (1 + y)] == t[1 + y]);
                }
            }
            assert(s[c + lr.len()] == 32) by {
                assert(s[w + (1 + lr.len())] == t[1 + lr.len() as int]);
            }
            assert(s.subrange(p_op, p_op + sp.len()) =~= sp) by {
                assert forall|y: int| 0 <= y < sp.len() implies s.subrange(
                    p_op,
                    p_op + sp.len(),
                )[y] == sp[y] by {
                    assert(s[w + (2 + lr.len() + y)] == t[2 + lr.len() + y]);
                }
            }
            assert(s[p_op + sp.len()] == 32) by {
                assert(s[w + (2 + lr.len() + sp.len())] == t[2 + lr.len() as int + sp.len() as int]);
            }
            assert(s.subrange(p_r, endc) =~= rr) by {
                assert forall|y: int| 0 <= y < rr.len() implies s.subrange(p_r, endc)[y]
                    == rr[y] by {
                    assert(s[w + (3 + lr.len() + sp.len() + y)] == t[3 + lr.len() + sp.len()
                        + y]);
                }
            }
            assert(s[endc] == 93) by {
                assert(s[w + (t.len() - 1)] == t[t.len() - 1]);
            }
            lemma_rt_content(5, e, s, c, endc);
            assert(sp_expr_level(5, s, c) == Some((e, endc)));
            assert(clamp(endc, w + 2, s.len() as int) == endc);
            assert(ws_at(s, endc) == endc);
            assert(sp_group(s, i) == Some((e, endc + 1)));
            assert(endc + 1 == end);
        },
        _ => {},
    }
}

/// Parsing the bracketed content `left SP op SP right` at any level from
/// the operator's own upward yields the operator application, ending at
/// the closing bracket.
proof fn lemma_rt_content(j: nat, e: SpecExpression, s: Seq<u8>, c: int, endc: int)
    requires
        e is BinOpExpr,
        level_of(e->BinOpExpr_op) <= j <= 5,
        lit_only(e),
        lits_finite(e),
        lit_facts(e),
        0 <= c,
        endc == c + sp_render(*e->BinOpExpr_left).len() + 1 + spelling(e->BinOpExpr_op).len()
            + 1 + sp_render(*e->BinOpExpr_right).len(),
        endc <= s.len(),
        s.subrange(c, c + sp_render(*e->BinOpExpr_left).len()) == sp_render(
            *e->BinOpExpr_left,
        ),
        s[c + sp_render(*e->BinOpExpr_left).len()] == 32,
        s.subrange(
            c + sp_render(*e->BinOpExpr_left).len() + 1,
            c + sp_render(*e->BinOpExpr_left).len() + 1 + spelling(e->BinOpExpr_op).len(),
        ) == spelling(e->BinOpExpr_op),
        s[c + sp_render(*e->BinOpExpr_left).len() + 1 + spelling(e->BinOpExpr_op).len()]
            == 32,
        s.subrange(
            c + sp_render(*e->BinOpExpr_left).len() + 2 + spelling(e->BinOpExpr_op).len(),
            endc,
        ) == sp_render(*e->BinOpExpr_right),
        endc == s.len() || s[endc] == 93,
    ensures
        sp_expr_level(j, s, c) == Some((e, endc)),
    decreases e, 0int, j,
{
    match e {
        SpecExpression::BinOpExpr { op, left, right } => {
            let k = level_of(op) as nat;
            let p_end_l = c + sp_render(*left).len();
            let p_op = p_end_l + 1;
            let p_sp = p_op + spelling(op).len();
            let p_r = p_sp + 1;
            lemma_render_head(*left);
            assert(s[c] == sp_render(*left)[0]) by {
                assert(s.subrange(c, p_end_l)[0] == s[c]);
            }
            assert(ws_at(s, c) == c);
            if j == k {
                // the operator's surroundings: one space on each side
                lemma_spelling_not_space(op);
                crate::parse_expression::lemma_spelling_nonempty(op);
                assert(s[p_op] == spelling(op)[0]) by {
                    assert(s.subrange(p_op, p_sp)[0] == s[p_op]);
                }
                assert(ws_at(s, p_end_l) == p_op) by {
                    crate::lex::lemma_ws_at_bounds(s, p_op);
                    assert(!is_space(s[p_op]));
                }
                assert(rt_after(s, p_end_l, Some(op)));
                // the left operand, one operator step, the right operand
                lemma_rt_level((k - 1) as nat, *left, s, c, Some(op));
                assert(sp_expr_level((k - 1) as nat, s, c) == Some((*left, p_end_l)));
                assert(clamp(p_end_l, c, s.len() as int) == p_end_l);
                lemma_level_scan_matches(s, p_op, op);
                assert(sp_binop_level(k, s, p_end_l) == Some((op, p_sp)));
                // the right operand parses just after the space
                lemma_render_head(*right);
                assert(s[p_r] == sp_render(*right)[0]) by {
                    assert(s.subrange(p_r, endc)[0] == s[p_r]);
                }
                assert(ws_at(s, p_sp) == p_r) by {
                    crate::lex::lemma_ws_at_bounds(s, p_r);
                    assert(!is_space(s[p_r]));
                }
                lemma_rt_level((k - 1) as nat, *right, s, p_sp, None);
                assert(sp_expr_level((k - 1) as nat, s, p_sp) == Some((*right, endc)));
                // and the fold stops at the closing bracket
                assert(clamp(endc, p_sp, s.len() as int) == endc);
                lemma_chain_stops(k, e, s, endc);
                assert(sp_chain(k, *left, s, p_end_l) == (e, endc));
            } else {
                lemma_rt_content((j - 1) as nat, e, s, c, endc);
                assert(clamp(endc, c, s.len() as int) == endc);
                lemma_chain_stops(j, e, s, endc);
            }
        },
        _ => {},
    }
}


/// The fold at level `k` consumes nothing at a boundary: a stop byte, or
/// a spelled operator of a weaker level.
proof fn lemma_chain_stops_at_bnd(
    k: nat,
    acc: SpecExpression,
    s: Seq<u8>,
    j: int,
    bnd: Option<BinOp>,
)
    requires
        1 <= k,
        0 <= j <= s.len(),
        rt_after(s, j, bnd),
        bnd is Some ==> level_of(bnd.unwrap()) > k,
    ensures
        sp_chain(k, acc, s, j) == (acc, j),
{
    match bnd {
        None => {
            lemma_chain_stops(k, acc, s, j);
        },
        Some(op) => {
            crate::lex::lemma_ws_at_bounds(s, j);
            lemma_low_scan_fails(k, s, ws_at(s, j), op);
            assert(sp_binop_level(k, s, j) is None);
        },
    }
}

/// A level's result carries up the ladder unchanged while each level's
/// fold stops at the boundary.
proof fn lemma_levels_lift(
    j0: nat,
    j: nat,
    x: SpecExpression,
    s: Seq<u8>,
    i: int,
    end: int,
    bnd: Option<BinOp>,
)
    requires
        j0 <= j <= 5,
        0 <= i <= s.len(),
        sp_expr_level(j0, s, i) == Some((x, end)),
        rt_after(s, end, bnd),
        bnd is Some ==> level_of(bnd.unwrap()) > j,
    ensures
        sp_expr_level(j, s, i) == Some((x, end)),
    decreases j - j0,
{
    crate::parse_expression::lemma_level_bounds(j0, s, i);
    if j > j0 {
        lemma_levels_lift(j0, (j - 1) as nat, x, s, i, end, bnd);
        assert(clamp(end, i, s.len() as int) == end);
        lemma_chain_stops_at_bnd(j, x, s, end, bnd);
    }
}

/// Precedence and whitespace-insensitivity for operator chains: in
/// `a OP1 b OP2 c`, with the tokens separated by any horizontal
/// whitespace whatever, the first operator binds first exactly when its
/// level is at most the second\'s; levels chain left-associatively and a
/// tighter level binds before a weaker one.  The gap widths never appear
/// in the result, so inserting more whitespace between the tokens cannot
/// change the tree.
#[verifier::rlimit(100)]
pub proof fn lemma_precedence(
    op1: BinOp,
    op2: BinOp,
    a: SpecExpression,
    b: SpecExpression,
    c: SpecExpression,
    g1: Seq<u8>,
    g2: Seq<u8>,
    g3: Seq<u8>,
    g4: Seq<u8>,
)
    requires
        lit_only(a) && lits_finite(a) && lit_facts(a),
        lit_only(b) && lits_finite(b) && lit_facts(b),
        lit_only(c) && lits_finite(c) && lit_facts(c),
        all_space(g1) && g1.len() >= 1,
        all_space(g2) && g2.len() >= 1,
        all_space(g3) && g3.len() >= 1,
        all_space(g4) && g4.len() >= 1,
    ensures
        ({
            let s = sp_render(a) + g1 + spelling(op1) + g2 + sp_render(b) + g3 + spelling(
                op2,
            ) + g4 + sp_render(c);
            let expected = if level_of(op1) <= level_of(op2) {
                SpecExpression::BinOpExpr {
                    op: op2,
                    left: Box::new(
                        SpecExpression::BinOpExpr {
                            op: op1,
                            left: Box::new(a),
                            right: Box::new(b),
                        },
                    ),
                    right: Box::new(c),
                }
            } else {
                SpecExpression::BinOpExpr {
                    op: op1,
                    left: Box::new(a),
                    right: Box::new(
                        SpecExpression::BinOpExpr {
                            op: op2,
                            left: Box::new(b),
                            right: Box::new(c),
                        },
                    ),
                }
            };
            sp_expression(s, 0) == Some((expected, s.len() as int))
        }),
{
    let ra = sp_render(a);
    let sp1 = spelling(op1);
    let rb = sp_render(b);
    let sp2 = spelling(op2);
    let rc = sp_render(c);
    let s = ra + g1 + sp1 + g2 + rb + g3 + sp2 + g4 + rc;
    let ea = ra.len() as int;
    let p1 = ea + g1.len();
    let e1 = p1 + sp1.len();
    let pb = e1 + g2.len();
    let eb = pb + rb.len();
    let p2 = eb + g3.len();
    let e2 = p2 + sp2.len();
    let pc = e2 + g4.len();
    let ec = pc + rc.len();
    let k1 = level_of(op1) as nat;
    let k2 = level_of(op2) as nat;
    crate::parse_expression::lemma_spelling_nonempty(op1);
    crate::parse_expression::lemma_spelling_nonempty(op2);
    lemma_render_head(a);
    lemma_render_head(b);
    lemma_render_head(c);
    lemma_spelling_not_space(op1);
    lemma_spelling_not_space(op2);
    assert(ec == s.len());
    // how the nine pieces sit in the input
    assert(s.subrange(0, ea) =~= ra) by {
        assert forall|y: int| 0 <= y < ea implies s[y] == ra[y] by {}
    }
    assert forall|y: int| 0 <= y < g1.len() implies is_space(#[trigger] s[ea + y]) by {
        assert((ra + g1)[ea + y] == g1[y]);
    }
    assert(s.subrange(p1, e1) =~= sp1) by {
        assert forall|y: int| 0 <= y < sp1.len() implies s[p1 + y] == sp1[y] by {
            assert((ra + g1 + sp1)[p1 + y] == sp1[y]);
        }
    }
    assert forall|y: int| 0 <= y < g2.len() implies is_space(#[trigger] s[e1 + y]) by {
        assert((ra + g1 + sp1 + g2)[e1 + y] == g2[y]);
    }
    assert(s.subrange(pb, eb) =~= rb) by {
        assert forall|y: int| 0 <= y < rb.len() implies s[pb + y] == rb[y] by {
            assert((ra + g1 + sp1 + g2 + rb)[pb + y] == rb[y]);
        }
    }
    assert forall|y: int| 0 <= y < g3.len() implies is_space(#[trigger] s[eb + y]) by {
        assert((ra + g1 + sp1 + g2 + rb + g3)[eb + y] == g3[y]);
    }
    assert(s.subrange(p2, e2) =~= sp2) by {
        assert forall|y: int| 0 <= y < sp2.len() implies s[p2 + y] == sp2[y] by {
            assert((ra + g1 + sp1 + g2 + rb + g3 + sp2)[p2 + y] == sp2[y]);
        }
    }
    assert forall|y: int| 0 <= y < g4.len() implies is_space(#[trigger] s[e2 + y]) by {
        assert((ra + g1 + sp1 + g2 + rb + g3 + sp2 + g4)[e2 + y] == g4[y]);
    }
    assert(s.subrange(pc, ec) =~= rc) by {
        assert forall|y: int| 0 <= y < rc.len() implies s[pc + y] == rc[y] by {}
    }
    // entry points: whitespace stops right at each piece
    assert(s[0] == ra[0]);
    assert(ws_at(s, 0) == 0);
    assert(s[p1] == sp1[0]) by {
        assert(s.subrange(p1, e1)[0] == s[p1]);
    }
    assert(ws_at(s, ea) == p1) by {
        lemma_ws_at_run(s, ea, p1);
    }
    assert(s[pb] == rb[0]) by {
        assert(s.subrange(pb, eb)[0] == s[pb]);
    }
    assert(ws_at(s, e1) == pb) by {
        lemma_ws_at_run(s, e1, pb);
    }
    assert(s[p2] == sp2[0]) by {
        assert(s.subrange(p2, e2)[0] == s[p2]);
    }
    assert(ws_at(s, eb) == p2) by {
        lemma_ws_at_run(s, eb, p2);
    }
    assert(s[pc] == rc[0]) by {
        assert(s.subrange(pc, ec)[0] == s[pc]);
    }
    assert(ws_at(s, e2) == pc) by {
        lemma_ws_at_run(s, e2, pc);
    }
    assert(is_space(s[ea]));
    assert(is_space(s[e1]));
    assert(is_space(s[eb]));
    assert(is_space(s[e2]));
    assert(rt_after(s, ea, Some(op1)));
    assert(rt_after(s, eb, Some(op2)));
    assert(rt_after(s, ec, None::<BinOp>));
    if k1 <= k2 {
        let ab = SpecExpression::BinOpExpr { op: op1, left: Box::new(a), right: Box::new(b) };
        // the left operand of OP1
        lemma_rt_level((k1 - 1) as nat, a, s, 0, Some(op1));
        assert(sp_expr_level((k1 - 1) as nat, s, 0) == Some((a, ea)));
        assert(clamp(ea, 0, s.len() as int) == ea);
        // the fold at OP1\'s level takes OP1 and b
        lemma_level_scan_matches(s, p1, op1);
        assert(sp_binop_level(k1, s, ea) == Some((op1, e1)));
        lemma_rt_level((k1 - 1) as nat, b, s, e1, Some(op2));
        assert(sp_expr_level((k1 - 1) as nat, s, e1) == Some((b, eb)));
        assert(clamp(eb, e1, s.len() as int) == eb);
        if k1 < k2 {
            // OP2 is weaker, so the fold stops before it
            lemma_chain_stops_at_bnd(k1, ab, s, eb, Some(op2));
            assert(sp_chain(k1, a, s, ea) == (ab, eb));
            assert(sp_expr_level(k1, s, 0) == Some((ab, eb)));
            lemma_levels_lift(k1, (k2 - 1) as nat, ab, s, 0, eb, Some(op2));
            // and OP2\'s own level folds the rest
            lemma_level_scan_matches(s, p2, op2);
            assert(sp_binop_level(k2, s, eb) == Some((op2, e2)));
            lemma_rt_level((k2 - 1) as nat, c, s, e2, None);
            assert(sp_expr_level((k2 - 1) as nat, s, e2) == Some((c, ec)));
            assert(clamp(ec, e2, s.len() as int) == ec);
            let full = SpecExpression::BinOpExpr {
                op: op2,
                left: Box::new(ab),
                right: Box::new(c),
            };
            lemma_chain_stops(k2, full, s, ec);
            assert(sp_chain(k2, ab, s, eb) == (full, ec));
            assert(clamp(eb, 0, s.len() as int) == eb);
            assert(sp_expr_level(k2, s, 0) == Some((full, ec)));
            lemma_levels_lift(k2, 5, full, s, 0, ec, None);
        } else {
            // same level: the fold chains on, left-associatively
            lemma_level_scan_matches(s, p2, op2);
            assert(sp_binop_level(k1, s, eb) == Some((op2, e2)));
            lemma_rt_level((k1 - 1) as nat, c, s, e2, None);
            assert(sp_expr_level((k1 - 1) as nat, s, e2) == Some((c, ec)));
            assert(clamp(ec, e2, s.len() as int) == ec);
            let full = SpecExpression::BinOpExpr {
                op: op2,
                left: Box::new(ab),
                right: Box::new(c),
            };
            lemma_chain_stops(k1, full, s, ec);
            assert(sp_chain(k1, ab, s, eb) == (full, ec));
            assert(sp_chain(k1, a, s, ea) == (full, ec));
            assert(sp_expr_level(k1, s, 0) == Some((full, ec)));
            lemma_levels_lift(k1, 5, full, s, 0, ec, None);
        }
    } else {
        // OP1 is weaker: everything from b on binds first
        let bc = SpecExpression::BinOpExpr { op: op2, left: Box::new(b), right: Box::new(c) };
        let full = SpecExpression::BinOpExpr { op: op1, left: Box::new(a), right: Box::new(bc) };
        // a alone carries up to just below OP1\'s level
        lemma_rt_level((k2 - 1) as nat, a, s, 0, Some(op1));
        assert(sp_expr_level((k2 - 1) as nat, s, 0) == Some((a, ea)));
        lemma_levels_lift((k2 - 1) as nat, (k1 - 1) as nat, a, s, 0, ea, Some(op1));
        // the fold at OP1\'s level takes OP1 and the whole of `b OP2 c`
        lemma_level_scan_matches(s, p1, op1);
        assert(sp_binop_level(k1, s, ea) == Some((op1, e1)));
        // the operand: b OP2 c at the levels below OP1
        lemma_rt_level((k2 - 1) as nat, b, s, e1, Some(op2));
        assert(sp_expr_level((k2 - 1) as nat, s, e1) == Some((b, eb)));
        lemma_level_scan_matches(s, p2, op2);
        assert(sp_binop_level(k2, s, eb) == Some((op2, e2)));
        lemma_rt_level((k2 - 1) as nat, c, s, e2, None);
        assert(sp_expr_level((k2 - 1) as nat, s, e2) == Some((c, ec)));
        assert(clamp(ec, e2, s.len() as int) == ec);
        lemma_chain_stops(k2, bc, s, ec);
        assert(clamp(eb, e1, s.len() as int) == eb);
        assert(sp_chain(k2, b, s, eb) == (bc, ec));
        assert(sp_expr_level(k2, s, e1) == Some((bc, ec)));
        lemma_levels_lift(k2, (k1 - 1) as nat, bc, s, e1, ec, None);
        assert(sp_expr_level((k1 - 1) as nat, s, e1) == Some((bc, ec)));
        // and the fold closes at the end of the input
        lemma_chain_stops(k1, full, s, ec);
        assert(clamp(ea, 0, s.len() as int) == ea);
        assert(sp_chain(k1, a, s, ea) == (full, ec));
        assert(sp_expr_level(k1, s, 0) == Some((full, ec)));
        lemma_levels_lift(k1, 5, full, s, 0, ec, None);
    }
}

/// Round trip: the canonical rendering of a literal-only expression with
/// finite literals parses back to the very same expression, consuming the
/// whole text — so in particular it evaluates the same in every
/// environment.  The hypothesis is what the renderer's contract gives for
/// each literal: its decimal text is a well-formed literal that converts
/// back to the same bits.
pub proof fn lemma_render_round_trip(e: SpecExpression)
    requires
        lit_only(e),
        lits_finite(e),
        lit_facts(e),
    ensures
        sp_expression(sp_render(e), 0) == Some((e, sp_render(e).len() as int)),
{
    let s = sp_render(e);
    lemma_render_head(e);
    assert(s.subrange(0, s.len() as int) =~= s);
    assert(ws_at(s, 0) == 0);
    lemma_rt_level(5, e, s, 0, None);
}

/// The round trip is insensitive to leading whitespace: however much
/// horizontal whitespace stands before the rendering, the parse skips it
/// and yields the same expression.
pub proof fn lemma_render_round_trip_padded(e: SpecExpression, s: Seq<u8>)
    requires
        lit_only(e),
        lits_finite(e),
        lit_facts(e),
        ws_at(s, 0) + sp_render(e).len() == s.len(),
        s.subrange(ws_at(s, 0), s.len() as int) == sp_render(e),
    ensures
        sp_expression(s, 0) == Some((e, s.len() as int)),
{
    crate::lex::lemma_ws_at_bounds(s, 0);
    lemma_rt_level(5, e, s, 0, None);
}

} // verus!
