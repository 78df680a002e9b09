//! The expression grammar: atoms (function calls, parameters, float
//! literals), bracketed groups, and a five-level ladder of left-associative
//! binary operators.
//!
//! The grammar is written once as a family of spec functions from a byte
//! sequence and a position to a parsed view and an end position; each
//! executable parser is proved to return exactly what its spec function
//! says.

use vstd::prelude::*;

use crate::binop::{level_ops, level_ops_exec, spelling, BinOp};
use crate::expression::{
    sorted_desc, BinOpList, Expression, FuncCall, NamedParam, Param, UnaryFuncName,
};
use crate::fbits::FloatBits;
use crate::lex;
use crate::lex::{
    alnum_or_underscore_at, alpha_end, alpha_guard_ok, byte_at, digits_end, float_end, gt_end,
    is_alpha, is_ascii_ws, is_alnum_or_underscore, lower, lower_exec, match_byte, match_ci,
    matches_ci_at, scan_alpha, scan_gt, skip_ws, sp_lex_uint, ws_at,
};
use crate::spec_ast::{SpecExpression, SpecFuncCall, SpecNamedParam, SpecParam};
use crate::text::{ascii_to_string, f32_of_literal, parse_float_bits};

verus! {

broadcast use {
    crate::lex::lemma_ws_at_bounds,
    crate::lex::lemma_digits_end_bounds,
    crate::lex::lemma_alpha_end_bounds,
    crate::lex::lemma_gt_end_bounds,
    crate::lex::lemma_float_end_bounds,
};

/// Clamp `j` into `[lo, hi]` (the upper bound wins when they cross).
pub open spec fn clamp(j: int, lo: int, hi: int) -> int {
    let floored = if j < lo {
        lo
    } else {
        j
    };
    if floored > hi {
        hi
    } else {
        floored
    }
}

/// Every operator spelling has at least one byte.
pub proof fn lemma_spelling_nonempty(op: BinOp)
    ensures
        1 <= spelling(op).len() <= 3,
{
}

/// Where one operator matches at `i`: its spelling, case-insensitively, and
/// for an alphabetic spelling no letter, digit or underscore after it.
pub open spec fn sp_match_op_at(s: Seq<u8>, i: int, op: BinOp) -> Option<int> {
    if matches_ci_at(s, i, spelling(op)) && (is_alpha(spelling(op)[0]) ==> alpha_guard_ok(
        s,
        i + spelling(op).len(),
    )) {
        Some(i + spelling(op).len())
    } else {
        None
    }
}

/// The first operator of the list matching at `i`, tried in list order.
pub open spec fn sp_op_from_list(ops: Seq<BinOp>, s: Seq<u8>, i: int) -> Option<(BinOp, int)>
    decreases ops.len(),
{
    if ops.len() == 0 {
        None
    } else {
        match sp_match_op_at(s, i, ops[0]) {
            Some(e) => Some((ops[0], e)),
            None => sp_op_from_list(ops.drop_first(), s, i),
        }
    }
}

pub broadcast proof fn lemma_op_from_list_bounds(ops: Seq<BinOp>, s: Seq<u8>, i: int)
    requires
        0 <= i <= s.len(),
    ensures
        match #[trigger] sp_op_from_list(ops, s, i) {
            Some((op, e)) => i + 1 <= e <= s.len(),
            None => true,
        },
    decreases ops.len(),
{
    if ops.len() > 0 {
        lemma_spelling_nonempty(ops[0]);
        lemma_op_from_list_bounds(ops.drop_first(), s, i);
    }
}

/// An operator of precedence level `k`, with leading whitespace skipped.
pub open spec fn sp_binop_level(k: nat, s: Seq<u8>, i: int) -> Option<(BinOp, int)> {
    sp_op_from_list(level_ops(k as int), s, ws_at(s, i))
}

pub broadcast proof fn lemma_binop_level_bounds(k: nat, s: Seq<u8>, i: int)
    requires
        0 <= i <= s.len(),
    ensures
        match #[trigger] sp_binop_level(k, s, i) {
            Some((op, e)) => i < e <= s.len(),
            None => true,
        },
{
    lemma_op_from_list_bounds(level_ops(k as int), s, ws_at(s, i));
}

/// The unary function named by the letter run at `i`: the whole run must
/// spell one of the known names, case-insensitively.
pub open spec fn sp_func_name_at(s: Seq<u8>, i: int) -> Option<(UnaryFuncName, int)> {
    let e = alpha_end(s, i);
    if e == i {
        None
    } else if e - i == 3 && matches_ci_at(s, i, seq![65u8, 66u8, 83u8]) {  // ABS
        Some((UnaryFuncName::Abs, e))
    } else if e - i == 4 && matches_ci_at(s, i, seq![65u8, 67u8, 79u8, 83u8]) {  // ACOS
        Some((UnaryFuncName::Acos, e))
    } else if e - i == 4 && matches_ci_at(s, i, seq![65u8, 83u8, 73u8, 78u8]) {  // ASIN
        Some((UnaryFuncName::Asin, e))
    } else if e - i == 3 && matches_ci_at(s, i, seq![67u8, 79u8, 83u8]) {  // COS
        Some((UnaryFuncName::Cos, e))
    } else if e - i == 3 && matches_ci_at(s, i, seq![69u8, 88u8, 80u8]) {  // EXP
        Some((UnaryFuncName::Exp, e))
    } else if e - i == 3 && matches_ci_at(s, i, seq![70u8, 73u8, 88u8]) {  // FIX
        Some((UnaryFuncName::Fix, e))
    } else if e - i == 3 && matches_ci_at(s, i, seq![70u8, 85u8, 80u8]) {  // FUP
        Some((UnaryFuncName::Fup, e))
    } else if e - i == 5 && matches_ci_at(s, i, seq![82u8, 79u8, 85u8, 78u8, 68u8]) {  // ROUND
        Some((UnaryFuncName::Round, e))
    } else if e - i == 2 && matches_ci_at(s, i, seq![76u8, 78u8]) {  // LN
        Some((UnaryFuncName::Ln, e))
    } else if e - i == 3 && matches_ci_at(s, i, seq![83u8, 73u8, 78u8]) {  // SIN
        Some((UnaryFuncName::Sin, e))
    } else if e - i == 4 && matches_ci_at(s, i, seq![83u8, 81u8, 82u8, 84u8]) {  // SQRT
        Some((UnaryFuncName::Sqrt, e))
    } else if e - i == 3 && matches_ci_at(s, i, seq![84u8, 65u8, 78u8]) {  // TAN
        Some((UnaryFuncName::Tan, e))
    } else {
        None
    }
}

/// Bytes allowed between `#<` and `>`: name characters or whitespace.
pub open spec fn name_region_ok(s: Seq<u8>, i: int, j: int) -> bool {
    forall|k: int| i <= k < j ==> is_alnum_or_underscore(#[trigger] s[k]) || is_ascii_ws(s[k])
}

/// The normalized name bytes of the region `s[i..j)`: whitespace dropped,
/// letters lowercased.
pub open spec fn sp_name_bytes(s: Seq<u8>, i: int, j: int) -> Seq<u8>
    decreases j - i,
{
    if i < j {
        if is_ascii_ws(s[i]) {
            sp_name_bytes(s, i + 1, j)
        } else {
            seq![lower(s[i])] + sp_name_bytes(s, i + 1, j)
        }
    } else {
        Seq::empty()
    }
}

/// Normalized name bytes stay below 128 when the region is well-formed.
pub proof fn lemma_name_bytes_ascii(s: Seq<u8>, i: int, j: int)
    requires
        name_region_ok(s, i, j),
    ensures
        forall|k: int| 0 <= k < sp_name_bytes(s, i, j).len() ==> #[trigger] sp_name_bytes(
            s,
            i,
            j,
        )[k] < 128,
    decreases j - i,
{
    if i < j {
        lemma_name_bytes_ascii(s, i + 1, j);
        if !is_ascii_ws(s[i]) {
            assert(is_alnum_or_underscore(s[i]) || is_ascii_ws(s[i]));
            let nb = sp_name_bytes(s, i, j);
            assert(nb == seq![lower(s[i])] + sp_name_bytes(s, i + 1, j));
            assert forall|k: int| 0 <= k < nb.len() implies nb[k] < 128 by {
                if k == 0 {
                    assert(nb[0] == lower(s[i]));
                } else {
                    assert(nb[k] == sp_name_bytes(s, i + 1, j)[k - 1]);
                }
            }
        }
    }
}

/// A name in `#<...>`: everything up to the next `>` must be name
/// characters or whitespace, and at least one name character must remain
/// after normalization.  Yields the normalized characters and the position
/// after the `>`.
pub open spec fn sp_scan_name(s: Seq<u8>, i: int) -> Option<(Seq<char>, int)> {
    let g = gt_end(s, i);
    if g < s.len() && name_region_ok(s, i, g) && sp_name_bytes(s, i, g).len() > 0 {
        Some((sp_name_bytes(s, i, g).map_values(|b: u8| b as char), g + 1))
    } else {
        None
    }
}

/// A named parameter `#<name>`, local unless the normalized name begins
/// with an underscore.
pub open spec fn sp_named_param(s: Seq<u8>, i: int) -> Option<(SpecNamedParam, int)> {
    let h = ws_at(s, i);
    if byte_at(s, h, 35) {  // #
        let a = ws_at(s, h + 1);
        if byte_at(s, a, 60) {  // <
            match sp_scan_name(s, a + 1) {
                Some((nm, e)) => Some(
                    (
                        if nm[0] == '_' {
                            SpecNamedParam::NamedGlobal(nm)
                        } else {
                            SpecNamedParam::NamedLocal(nm)
                        },
                        e,
                    ),
                ),
                None => None,
            }
        } else {
            None
        }
    } else {
        None
    }
}

pub broadcast proof fn lemma_named_param_bounds(s: Seq<u8>, i: int)
    requires
        0 <= i <= s.len(),
    ensures
        match #[trigger] sp_named_param(s, i) {
            Some((p, e)) => i < e <= s.len(),
            None => true,
        },
{
}

/// A parameter: `#` followed by a name in angle brackets, a numbered
/// index, another parameter (indirect), or a bracketed index expression.
pub open spec fn sp_param(s: Seq<u8>, i: int) -> Option<(SpecParam, int)>
    decreases s.len() - i, 2int
        when 0 <= i <= s.len()
{
    let h = ws_at(s, i);
    if byte_at(s, h, 35) {  // #
        let a = ws_at(s, h + 1);
        if byte_at(s, a, 60) {  // <
            match sp_scan_name(s, a + 1) {
                Some((nm, e)) => Some(
                    (
                        if nm[0] == '_' {
                            SpecParam::NamedGlobal(nm)
                        } else {
                            SpecParam::NamedLocal(nm)
                        },
                        e,
                    ),
                ),
                None => None,
            }
        } else {
            match sp_lex_uint(s, a) {
                Some((v, e)) => Some((SpecParam::Numbered(v), e)),
                None => {
                    if byte_at(s, a, 35) {  // indirect, e.g. ##1
                        match sp_param(s, a) {
                            Some((p, e)) => Some(
                                (
                                    SpecParam::Expr(Box::new(SpecExpression::Param(p))),
                                    e,
                                ),
                            ),
                            None => None,
                        }
                    } else if byte_at(s, a, 91) {  // [
                        match sp_group(s, a) {
                            Some((ex, e)) => Some((SpecParam::Expr(Box::new(ex)), e)),
                            None => None,
                        }
                    } else {
                        None
                    }
                },
            }
        }
    } else {
        None
    }
}

/// A function call: `ATAN[y]/[x]`, `EXISTS[#<name>]`, or a unary function
/// applied to a bracketed argument; the spellings are tried in that order.
pub open spec fn sp_func_call(s: Seq<u8>, i: int) -> Option<(SpecFuncCall, int)>
    decreases s.len() - i, 2int
        when 0 <= i <= s.len()
{
    if matches_ci_at(s, i, seq![65u8, 84u8, 65u8, 78u8]) && sp_atan_rest(s, i) is Some {  // ATAN
        sp_atan_rest(s, i)
    } else if matches_ci_at(s, i, seq![69u8, 88u8, 73u8, 83u8, 84u8, 83u8]) && sp_exists_rest(
        s,
        i,
    ) is Some {  // EXISTS
        sp_exists_rest(s, i)
    } else {
        match sp_func_name_at(s, i) {
            Some((name, e)) => match sp_group(s, e) {
                Some((arg, e2)) => Some(
                    (SpecFuncCall::Unary { name, arg: Box::new(arg) }, e2),
                ),
                None => None,
            },
            None => None,
        }
    }
}

/// What follows a matched `ATAN`: a bracketed group, `/`, and a second
/// bracketed group.
pub open spec fn sp_atan_rest(s: Seq<u8>, i: int) -> Option<(SpecFuncCall, int)>
    decreases s.len() - i, 1int
        when 0 <= i <= s.len() && matches_ci_at(s, i, seq![65u8, 84u8, 65u8, 78u8])
        via sp_atan_rest_decreases
{
    match sp_group(s, i + 4) {
        Some((arg_y, e1)) => {
            let c1 = clamp(e1, i + 5, s.len() as int);
            let sl = ws_at(s, c1);
            if byte_at(s, sl, 47) {  // /
                match sp_group(s, sl + 1) {
                    Some((arg_x, e2)) => Some(
                        (
                            SpecFuncCall::Atan {
                                arg_y: Box::new(arg_y),
                                arg_x: Box::new(arg_x),
                            },
                            e2,
                        ),
                    ),
                    None => None,
                }
            } else {
                None
            }
        },
        None => None,
    }
}

#[via_fn]
proof fn sp_atan_rest_decreases(s: Seq<u8>, i: int) {
    assert forall|c: int| 0 <= c <= s.len() implies c <= #[trigger] ws_at(s, c) <= s.len() by {
        lex::lemma_ws_at_bounds(s, c);
    }
}

/// What follows a matched `EXISTS`: a named parameter in brackets.
pub open spec fn sp_exists_rest(s: Seq<u8>, i: int) -> Option<(SpecFuncCall, int)> {
    let b = ws_at(s, i + 6);
    if b <= s.len() && byte_at(s, b, 91) {  // [
        match sp_named_param(s, b + 1) {
            Some((p, e)) => {
                let c = ws_at(s, clamp(e, b + 2, s.len() as int));
                if byte_at(s, c, 93) {  // ]
                    Some((SpecFuncCall::Exists { param: p }, c + 1))
                } else {
                    None
                }
            },
            None => None,
        }
    } else {
        None
    }
}

/// A bracketed group: `[` expression `]`, whitespace allowed around both
/// brackets.
pub open spec fn sp_group(s: Seq<u8>, i: int) -> Option<(SpecExpression, int)>
    decreases s.len() - i, 1int
        when 0 <= i <= s.len()
{
    let h = ws_at(s, i);
    if byte_at(s, h, 91) {  // [
        match sp_expr_level(5, s, h + 1) {
            Some((ex, e1)) => {
                let c = ws_at(s, clamp(e1, h + 2, s.len() as int));
                if byte_at(s, c, 93) {  // ]
                    Some((ex, c + 1))
                } else {
                    None
                }
            },
            None => None,
        }
    } else {
        None
    }
}

/// An atom, with leading whitespace skipped: a function call, a parameter
/// reference, or a float literal — tried in that order, so `ATAN` is a
/// function, never the head of anything else.
pub open spec fn sp_atom(s: Seq<u8>, i: int) -> Option<(SpecExpression, int)>
    decreases s.len() - i, 3int
        when 0 <= i <= s.len()
{
    let h = ws_at(s, i);
    match sp_func_call(s, h) {
        Some((f, e)) => Some((SpecExpression::FuncCall(f), e)),
        None => match sp_param(s, h) {
            Some((p, e)) => Some((SpecExpression::Param(p), e)),
            None => {
                let fe = float_end(s, h);
                if fe > h {
                    Some((SpecExpression::Lit(f32_of_literal(s.subrange(h, fe))), fe))
                } else {
                    None
                }
            },
        },
    }
}

/// A factor: an atom, or failing that a bracketed group.
pub open spec fn sp_factor(s: Seq<u8>, i: int) -> Option<(SpecExpression, int)>
    decreases s.len() - i, 4int
        when 0 <= i <= s.len()
{
    match sp_atom(s, i) {
        Some(r) => Some(r),
        None => sp_group(s, i),
    }
}

/// An expression up to precedence level `k`: level 0 is a factor, level
/// `k` folds level-`k` operators over level-`k - 1` operands,
/// left-associatively.
pub open spec fn sp_expr_level(k: nat, s: Seq<u8>, i: int) -> Option<(SpecExpression, int)>
    decreases s.len() - i, 5int + 2 * k
        when 0 <= i <= s.len()
{
    if k == 0 {
        sp_factor(s, i)
    } else {
        match sp_expr_level((k - 1) as nat, s, i) {
            Some((first, e)) => {
                let (res, end) = sp_chain(k, first, s, clamp(e, i, s.len() as int));
                Some((res, end))
            },
            None => None,
        }
    }
}

/// The left-associative fold at level `k`: as long as a level-`k` operator
/// and a level-`k - 1` operand follow, fold them into the accumulator; a
/// half-matched tail (operator without operand) is left unconsumed.
pub open spec fn sp_chain(k: nat, acc: SpecExpression, s: Seq<u8>, i: int) -> (
    SpecExpression,
    int,
)
    decreases s.len() - i, 4int + 2 * k
        when 1 <= k && 0 <= i <= s.len()
        via sp_chain_decreases
{
    match sp_binop_level(k, s, i) {
        None => (acc, i),
        Some((op, e1)) => match sp_expr_level((k - 1) as nat, s, e1) {
            None => (acc, i),
            Some((rhs, e2)) => {
                let next = SpecExpression::BinOpExpr {
                    op,
                    left: Box::new(acc),
                    right: Box::new(rhs),
                };
                sp_chain(k, next, s, clamp(e2, e1, s.len() as int))
            },
        },
    }
}

#[via_fn]
proof fn sp_chain_decreases(k: nat, acc: SpecExpression, s: Seq<u8>, i: int) {
    lemma_binop_level_bounds(k, s, i);
}

/// A whole expression: the top of the precedence ladder.
pub open spec fn sp_expression(s: Seq<u8>, i: int) -> Option<(SpecExpression, int)> {
    sp_expr_level(5, s, i)
}

/// A successful parameter parse consumes at least one byte and stays in
/// bounds.
pub proof fn lemma_param_bounds(s: Seq<u8>, i: int)
    requires
        0 <= i <= s.len(),
    ensures
        match sp_param(s, i) {
            Some((p, e)) => i < e <= s.len(),
            None => true,
        },
    decreases s.len() - i, 2int,
{
    let h = ws_at(s, i);
    if byte_at(s, h, 35) {
        let a = ws_at(s, h + 1);
        if !byte_at(s, a, 60) && sp_lex_uint(s, a) is None {
            if byte_at(s, a, 35) {
                lemma_param_bounds(s, a);
            } else if byte_at(s, a, 91) {
                lemma_group_bounds(s, a);
            }
        }
    }
}

/// A successful function-call parse consumes at least one byte and stays
/// in bounds.
pub proof fn lemma_func_call_bounds(s: Seq<u8>, i: int)
    requires
        0 <= i <= s.len(),
    ensures
        match sp_func_call(s, i) {
            Some((f, e)) => i < e <= s.len(),
            None => true,
        },
    decreases s.len() - i, 2int,
{
    if matches_ci_at(s, i, seq![65u8, 84u8, 65u8, 78u8]) && sp_atan_rest(s, i) is Some {
        lemma_atan_rest_bounds(s, i);
    } else if matches_ci_at(s, i, seq![69u8, 88u8, 73u8, 83u8, 84u8, 83u8]) && sp_exists_rest(
        s,
        i,
    ) is Some {
    } else {
        match sp_func_name_at(s, i) {
            Some((name, e)) => {
                lemma_group_bounds(s, e);
            },
            None => {},
        }
    }
}

/// The tail of an `ATAN` call stays in bounds.
pub proof fn lemma_atan_rest_bounds(s: Seq<u8>, i: int)
    requires
        0 <= i <= s.len(),
        matches_ci_at(s, i, seq![65u8, 84u8, 65u8, 78u8]),
    ensures
        match sp_atan_rest(s, i) {
            Some((f, e)) => i < e <= s.len(),
            None => true,
        },
    decreases s.len() - i, 1int,
{
    match sp_group(s, i + 4) {
        Some((arg_y, e1)) => {
            lemma_group_bounds(s, i + 4);
            let c1 = clamp(e1, i + 5, s.len() as int);
            let sl = ws_at(s, c1);
            if byte_at(s, sl, 47) {
                lemma_group_bounds(s, sl + 1);
            }
        },
        None => {},
    }
}

/// A successful group parse consumes at least one byte and stays in
/// bounds.
pub proof fn lemma_group_bounds(s: Seq<u8>, i: int)
    requires
        0 <= i <= s.len(),
    ensures
        match sp_group(s, i) {
            Some((ex, e)) => i < e <= s.len(),
            None => true,
        },
    decreases s.len() - i, 1int,
{
    let h = ws_at(s, i);
    if byte_at(s, h, 91) {
        match sp_expr_level(5, s, h + 1) {
            Some((ex, e1)) => {
                lemma_level_bounds(5, s, h + 1);
            },
            None => {},
        }
    }
}

/// A successful atom parse consumes at least one byte and stays in bounds.
pub proof fn lemma_atom_bounds(s: Seq<u8>, i: int)
    requires
        0 <= i <= s.len(),
    ensures
        match sp_atom(s, i) {
            Some((ex, e)) => i < e <= s.len(),
            None => true,
        },
    decreases s.len() - i, 3int,
{
    let h = ws_at(s, i);
    lemma_func_call_bounds(s, h);
    lemma_param_bounds(s, h);
}

/// A successful factor parse consumes at least one byte and stays in
/// bounds.
pub proof fn lemma_factor_bounds(s: Seq<u8>, i: int)
    requires
        0 <= i <= s.len(),
    ensures
        match sp_factor(s, i) {
            Some((ex, e)) => i < e <= s.len(),
            None => true,
        },
    decreases s.len() - i, 4int,
{
    lemma_atom_bounds(s, i);
    lemma_group_bounds(s, i);
}

/// A successful level parse consumes at least one byte and stays in
/// bounds.
pub proof fn lemma_level_bounds(k: nat, s: Seq<u8>, i: int)
    requires
        0 <= i <= s.len(),
    ensures
        match sp_expr_level(k, s, i) {
            Some((ex, e)) => i < e <= s.len(),
            None => true,
        },
    decreases s.len() - i, 5int + 2 * k,
{
    if k == 0 {
        lemma_factor_bounds(s, i);
    } else {
        match sp_expr_level((k - 1) as nat, s, i) {
            Some((first, e)) => {
                lemma_level_bounds((k - 1) as nat, s, i);
                lemma_chain_bounds(k, first, s, clamp(e, i, s.len() as int));
            },
            None => {},
        }
    }
}

/// Match one operator at `pos`.
pub fn match_op_at(s: &[u8], pos: usize, op: BinOp) -> (r: Option<usize>)
    requires
        pos <= s@.len(),
    ensures
        match r {
            Some(e) => sp_match_op_at(s@, pos as int, op) == Some(e as int) && pos < e <= s@.len(),
            None => sp_match_op_at(s@, pos as int, op) is None,
        },
{
    let n = s.len();
    let sp = op.to_value();
    proof {
        lemma_spelling_nonempty(op);
    }
    if !match_ci(s, pos, sp.as_slice()) {
        return None;
    }
    proof {
        assert(pos + sp@.len() <= n);
    }
    let e = pos + sp.len();
    let first = sp[0];
    if ((65 <= first && first <= 90) || (97 <= first && first <= 122)) && alnum_or_underscore_at(
        s,
        e,
    ) {
        return None;
    }
    Some(e)
}

/// Match the first operator of a sorted list at `pos`.
pub fn parse_binop_in_list(ops: &[BinOp], s: &[u8], pos: usize) -> (r: Option<(BinOp, usize)>)
    requires
        pos <= s@.len(),
    ensures
        match r {
            Some((op, e)) => sp_op_from_list(ops@, s@, pos as int) == Some((op, e as int)) && pos
                < e <= s@.len(),
            None => sp_op_from_list(ops@, s@, pos as int) is None,
        },
{
    let mut j: usize = 0;
    proof {
        assert(ops@.skip(0) =~= ops@);
    }
    while j < ops.len()
        invariant
            j <= ops@.len(),
            pos <= s@.len(),
            sp_op_from_list(ops@.skip(j as int), s@, pos as int) == sp_op_from_list(
                ops@,
                s@,
                pos as int,
            ),
        decreases ops@.len() - j,
    {
        proof {
            assert(ops@.skip(j as int)[0] == ops@[j as int]);
            assert(ops@.skip(j as int).drop_first() =~= ops@.skip(j + 1));
        }
        match match_op_at(s, pos, ops[j]) {
            Some(e) => {
                return Some((ops[j], e));
            },
            None => {},
        }
        j += 1;
    }
    proof {
        assert(ops@.skip(ops@.len() as int).len() == 0);
    }
    None
}

/// Match an operator of the given list after optional whitespace, as the
/// precedence ladder does at each level.
pub fn parse_binop<L: BinOpList>(ops: &L, s: &[u8], pos: usize) -> (r: Option<(BinOp, usize)>)
    requires
        pos <= s@.len(),
    ensures
        match r {
            Some((op, e)) => sp_op_from_list(ops.sp_ops(), s@, ws_at(s@, pos as int)) == Some(
                (op, e as int),
            ) && pos < e <= s@.len(),
            None => sp_op_from_list(ops.sp_ops(), s@, ws_at(s@, pos as int)) is None,
        },
{
    let h = skip_ws(s, pos);
    parse_binop_in_list(ops.op_list().as_slice(), s, h)
}

/// Scan a `#<...>` name body beginning at `pos` (after the `<`): the
/// normalized name, whether it begins with an underscore, and the position
/// after the closing `>`.
pub fn parse_name_at(s: &[u8], pos: usize) -> (r: Option<(String, bool, usize)>)
    requires
        pos <= s@.len(),
    ensures
        match r {
            Some((nm, g, e)) => {
                &&& sp_scan_name(s@, pos as int) == Some((nm@, e as int))
                &&& g == (nm@[0] == '_')
                &&& pos < e <= s@.len()
            },
            None => sp_scan_name(s@, pos as int) is None,
        },
{
    let g = scan_gt(s, pos);
    if g == s.len() {
        return None;
    }
    let mut buf: Vec<u8> = Vec::new();
    let mut cur: usize = pos;
    while cur < g
        invariant
            pos <= cur <= g < s@.len(),
            g == gt_end(s@, pos as int),
            name_region_ok(s@, pos as int, cur as int),
            sp_name_bytes(s@, pos as int, g as int) == buf@ + sp_name_bytes(
                s@,
                cur as int,
                g as int,
            ),
            forall|k: int| 0 <= k < buf@.len() ==> #[trigger] buf@[k] < 128,
        decreases g - cur,
    {
        let b = s[cur];
        let ws_here = b == 32 || b == 9 || b == 10 || b == 13;
        let name_char = (65 <= b && b <= 90) || (97 <= b && b <= 122) || (48 <= b && b <= 57) || b
            == 95;
        if !ws_here && !name_char {
            proof {
                assert(!name_region_ok(s@, pos as int, g as int));
            }
            return None;
        }
        proof {
            if ws_here {
                assert(sp_name_bytes(s@, cur as int, g as int) == sp_name_bytes(
                    s@,
                    cur + 1,
                    g as int,
                ));
            } else {
                assert(sp_name_bytes(s@, cur as int, g as int) == seq![lower(s@[cur as int])]
                    + sp_name_bytes(s@, cur + 1, g as int));
                assert(buf@ + sp_name_bytes(s@, cur as int, g as int) =~= buf@.push(
                    lower(s@[cur as int]),
                ) + sp_name_bytes(s@, cur + 1, g as int));
            }
        }
        if !ws_here {
            buf.push(lower_exec(b));
        }
        cur += 1;
    }
    proof {
        assert(sp_name_bytes(s@, cur as int, g as int) == Seq::<u8>::empty());
        assert(buf@ + Seq::<u8>::empty() =~= buf@);
    }
    if buf.len() == 0 {
        return None;
    }
    let is_global = buf[0] == 95;
    let nm = ascii_to_string(buf.as_slice());
    proof {
        assert(nm@ =~= sp_name_bytes(s@, pos as int, g as int).map_values(|b: u8| b as char));
        assert(nm@[0] == (buf@[0] as char));
        assert((95u8 as char) == '_');
        if !is_global {
            assert((buf@[0] as char) != '_');
        }
    }
    Some((nm, is_global, g + 1))
}

/// Parse a named parameter `#<name>`.
pub fn parse_named_param(s: &[u8], pos: usize) -> (r: Option<(NamedParam, usize)>)
    requires
        pos <= s@.len(),
    ensures
        match r {
            Some((p, e)) => sp_named_param(s@, pos as int) == Some((p@, e as int)) && pos < e
                <= s@.len(),
            None => sp_named_param(s@, pos as int) is None,
        },
{
    let n = s.len();
    let h = skip_ws(s, pos);
    if !match_byte(s, h, 35) {
        return None;
    }
    proof {
        assert(h < n);
    }
    let a = skip_ws(s, h + 1);
    if !match_byte(s, a, 60) {
        return None;
    }
    proof {
        assert(a < n);
    }
    match parse_name_at(s, a + 1) {
        Some((nm, is_global, e)) => {
            if is_global {
                Some((NamedParam::NamedGlobal(nm), e))
            } else {
                Some((NamedParam::NamedLocal(nm), e))
            }
        },
        None => None,
    }
}

/// Parse a parameter reference.
pub fn parse_param(s: &[u8], pos: usize) -> (r: Option<(Param, usize)>)
    requires
        pos <= s@.len(),
    ensures
        match r {
            Some((p, e)) => sp_param(s@, pos as int) == Some((p@, e as int)) && pos < e
                <= s@.len(),
            None => sp_param(s@, pos as int) is None,
        },
    decreases s@.len() - pos, 2int,
{
    let n = s.len();
    let h = skip_ws(s, pos);
    if !match_byte(s, h, 35) {
        return None;
    }
    proof {
        assert(h < n);
    }
    let a = skip_ws(s, h + 1);
    if match_byte(s, a, 60) {
        proof {
            assert(a < n);
        }
        match parse_name_at(s, a + 1) {
            Some((nm, is_global, e)) => {
                if is_global {
                    Some((Param::NamedGlobal(nm), e))
                } else {
                    Some((Param::NamedLocal(nm), e))
                }
            },
            None => None,
        }
    } else {
        match lex::lex_uint(s, a) {
            Some((v, e)) => Some((Param::Numbered(v), e)),
            None => {
                if match_byte(s, a, 35) {
                    match parse_param(s, a) {
                        Some((p, e)) => Some(
                            (Param::Expr(Box::new(Expression::Param(p))), e),
                        ),
                        None => None,
                    }
                } else if match_byte(s, a, 91) {
                    match parse_group(s, a) {
                        Some((ex, e)) => Some((Param::Expr(Box::new(ex)), e)),
                        None => None,
                    }
                } else {
                    None
                }
            },
        }
    }
}

/// Parse the unary function name spelled by the letter run at `pos`.
pub fn parse_func_name(s: &[u8], pos: usize) -> (r: Option<(UnaryFuncName, usize)>)
    requires
        pos <= s@.len(),
    ensures
        match r {
            Some((f, e)) => sp_func_name_at(s@, pos as int) == Some((f, e as int)) && pos < e
                <= s@.len(),
            None => sp_func_name_at(s@, pos as int) is None,
        },
{
    let e = scan_alpha(s, pos);
    if e == pos {
        return None;
    }
    let n = e - pos;
    let abs_b: Vec<u8> = vec![65u8, 66, 83];
    let acos_b: Vec<u8> = vec![65u8, 67, 79, 83];
    let asin_b: Vec<u8> = vec![65u8, 83, 73, 78];
    let cos_b: Vec<u8> = vec![67u8, 79, 83];
    let exp_b: Vec<u8> = vec![69u8, 88, 80];
    let fix_b: Vec<u8> = vec![70u8, 73, 88];
    let fup_b: Vec<u8> = vec![70u8, 85, 80];
    let round_b: Vec<u8> = vec![82u8, 79, 85, 78, 68];
    let ln_b: Vec<u8> = vec![76u8, 78];
    let sin_b: Vec<u8> = vec![83u8, 73, 78];
    let sqrt_b: Vec<u8> = vec![83u8, 81, 82, 84];
    let tan_b: Vec<u8> = vec![84u8, 65, 78];
    if n == 3 && match_ci(s, pos, abs_b.as_slice()) {
        Some((UnaryFuncName::Abs, e))
    } else if n == 4 && match_ci(s, pos, acos_b.as_slice()) {
        Some((UnaryFuncName::Acos, e))
    } else if n == 4 && match_ci(s, pos, asin_b.as_slice()) {
        Some((UnaryFuncName::Asin, e))
    } else if n == 3 && match_ci(s, pos, cos_b.as_slice()) {
        Some((UnaryFuncName::Cos, e))
    } else if n == 3 && match_ci(s, pos, exp_b.as_slice()) {
        Some((UnaryFuncName::Exp, e))
    } else if n == 3 && match_ci(s, pos, fix_b.as_slice()) {
        Some((UnaryFuncName::Fix, e))
    } else if n == 3 && match_ci(s, pos, fup_b.as_slice()) {
        Some((UnaryFuncName::Fup, e))
    } else if n == 5 && match_ci(s, pos, round_b.as_slice()) {
        Some((UnaryFuncName::Round, e))
    } else if n == 2 && match_ci(s, pos, ln_b.as_slice()) {
        Some((UnaryFuncName::Ln, e))
    } else if n == 3 && match_ci(s, pos, sin_b.as_slice()) {
        Some((UnaryFuncName::Sin, e))
    } else if n == 4 && match_ci(s, pos, sqrt_b.as_slice()) {
        Some((UnaryFuncName::Sqrt, e))
    } else if n == 3 && match_ci(s, pos, tan_b.as_slice()) {
        Some((UnaryFuncName::Tan, e))
    } else {
        None
    }
}

/// Parse a function call.
pub fn parse_func_call(s: &[u8], pos: usize) -> (r: Option<(FuncCall, usize)>)
    requires
        pos <= s@.len(),
    ensures
        match r {
            Some((f, e)) => sp_func_call(s@, pos as int) == Some((f@, e as int)) && pos < e
                <= s@.len(),
            None => sp_func_call(s@, pos as int) is None,
        },
    decreases s@.len() - pos, 2int,
{
    let n = s.len();
    let atan_b: Vec<u8> = vec![65u8, 84, 65, 78];
    let exists_b: Vec<u8> = vec![69u8, 88, 73, 83, 84, 83];
    if match_ci(s, pos, atan_b.as_slice()) {
        proof {
            assert(pos + 4 <= n);
        }
        match parse_group(s, pos + 4) {
            Some((arg_y, e1)) => {
                proof {
                    assert(clamp(e1 as int, pos + 5, s@.len() as int) == e1 as int);
                }
                let sl = skip_ws(s, e1);
                if match_byte(s, sl, 47) {
                    proof {
                        assert(sl < n);
                    }
                    match parse_group(s, sl + 1) {
                        Some((arg_x, e2)) => {
                            return Some(
                                (
                                    FuncCall::Atan {
                                        arg_y: Box::new(arg_y),
                                        arg_x: Box::new(arg_x),
                                    },
                                    e2,
                                ),
                            );
                        },
                        None => {},
                    }
                }
            },
            None => {},
        }
    }
    proof {
        if matches_ci_at(s@, pos as int, seq![65u8, 84u8, 65u8, 78u8]) {
            assert(sp_atan_rest(s@, pos as int) is None);
        }
    }
    if match_ci(s, pos, exists_b.as_slice()) {
        proof {
            assert(pos + 6 <= n);
        }
        let b = skip_ws(s, pos + 6);
        if match_byte(s, b, 91) {
            proof {
                assert(b < n);
            }
            match parse_named_param(s, b + 1) {
                Some((p, e)) => {
                    proof {
                        assert(clamp(e as int, b + 2, s@.len() as int) == e as int);
                    }
                    let c = skip_ws(s, e);
                    if match_byte(s, c, 93) {
                        return Some((FuncCall::Exists { param: p }, c + 1));
                    }
                },
                None => {},
            }
        }
    }
    proof {
        if matches_ci_at(s@, pos as int, seq![69u8, 88u8, 73u8, 83u8, 84u8, 83u8]) {
            assert(sp_exists_rest(s@, pos as int) is None);
        }
    }
    match parse_func_name(s, pos) {
        Some((name, e)) => match parse_group(s, e) {
            Some((arg, e2)) => Some((FuncCall::Unary { name, arg: Box::new(arg) }, e2)),
            None => None,
        },
        None => None,
    }
}

/// Parse an atom.
pub fn parse_atom(s: &[u8], pos: usize) -> (r: Option<(Expression, usize)>)
    requires
        pos <= s@.len(),
    ensures
        match r {
            Some((ex, e)) => sp_atom(s@, pos as int) == Some((ex@, e as int)) && pos < e
                <= s@.len(),
            None => sp_atom(s@, pos as int) is None,
        },
    decreases s@.len() - pos, 3int,
{
    let h = skip_ws(s, pos);
    match parse_func_call(s, h) {
        Some((f, e)) => Some((Expression::FuncCall(f), e)),
        None => match parse_param(s, h) {
            Some((p, e)) => Some((Expression::Param(p), e)),
            None => {
                let fe = lex::scan_float(s, h);
                if fe > h {
                    let b = parse_float_bits(s, h, fe);
                    Some((Expression::Lit(b), fe))
                } else {
                    None
                }
            },
        },
    }
}

/// Parse a factor: an atom, else a bracketed group.
pub fn parse_factor(s: &[u8], pos: usize) -> (r: Option<(Expression, usize)>)
    requires
        pos <= s@.len(),
    ensures
        match r {
            Some((ex, e)) => sp_factor(s@, pos as int) == Some((ex@, e as int)) && pos < e
                <= s@.len(),
            None => sp_factor(s@, pos as int) is None,
        },
    decreases s@.len() - pos, 4int,
{
    match parse_atom(s, pos) {
        Some(r) => Some(r),
        None => parse_group(s, pos),
    }
}

/// Parse a bracketed group.
pub fn parse_group(s: &[u8], pos: usize) -> (r: Option<(Expression, usize)>)
    requires
        pos <= s@.len(),
    ensures
        match r {
            Some((ex, e)) => sp_group(s@, pos as int) == Some((ex@, e as int)) && pos < e
                <= s@.len(),
            None => sp_group(s@, pos as int) is None,
        },
    decreases s@.len() - pos, 1int,
{
    let n = s.len();
    let h = skip_ws(s, pos);
    if !match_byte(s, h, 91) {
        return None;
    }
    proof {
        assert(h < n);
    }
    match parse_expr_level(5, s, h + 1) {
        Some((ex, e1)) => {
            proof {
                assert(clamp(e1 as int, h + 2, s@.len() as int) == e1 as int);
            }
            let c = skip_ws(s, e1);
            if match_byte(s, c, 93) {
                Some((ex, c + 1))
            } else {
                None
            }
        },
        None => None,
    }
}

/// Parse an expression up to precedence level `k`.
pub fn parse_expr_level(k: usize, s: &[u8], pos: usize) -> (r: Option<(Expression, usize)>)
    requires
        k <= 5,
        pos <= s@.len(),
    ensures
        match r {
            Some((ex, e)) => sp_expr_level(k as nat, s@, pos as int) == Some((ex@, e as int))
                && pos < e <= s@.len(),
            None => sp_expr_level(k as nat, s@, pos as int) is None,
        },
    decreases s@.len() - pos, 5int + 2 * k,
{
    if k == 0 {
        return parse_factor(s, pos);
    }
    let first = parse_expr_level(k - 1, s, pos);
    match first {
        None => None,
        Some((first_ex, p1)) => {
            proof {
                assert(clamp(p1 as int, pos as int, s@.len() as int) == p1 as int);
            }
            let ghost target = sp_chain(k as nat, first_ex@, s@, p1 as int);
            proof {
                assert(sp_expr_level(k as nat, s@, pos as int) == Some(target));
            }
            let ops = level_ops_exec(k);
            let mut acc = first_ex;
            let mut cur: usize = p1;
            loop
                invariant
                    1 <= k <= 5,
                    pos < cur <= s@.len(),
                    ops@ == level_ops(k as int),
                    sp_chain(k as nat, acc@, s@, cur as int) == target,
                    sp_expr_level(k as nat, s@, pos as int) == Some(target),
                decreases s@.len() - cur,
            {
                let h = skip_ws(s, cur);
                let opr = parse_binop_in_list(ops.as_slice(), s, h);
                match opr {
                    None => {
                        proof {
                            assert(sp_binop_level(k as nat, s@, cur as int) is None);
                            assert(target == (acc@, cur as int));
                        }
                        return Some((acc, cur));
                    },
                    Some((op, e1)) => {
                        match parse_expr_level(k - 1, s, e1) {
                            None => {
                                proof {
                                    assert(sp_binop_level(k as nat, s@, cur as int) == Some(
                                        (op, e1 as int),
                                    ));
                                    assert(target == (acc@, cur as int));
                                }
                                return Some((acc, cur));
                            },
                            Some((rhs, e2)) => {
                                proof {
                                    assert(sp_binop_level(k as nat, s@, cur as int) == Some(
                                        (op, e1 as int),
                                    ));
                                    assert(clamp(e2 as int, e1 as int, s@.len() as int)
                                        == e2 as int);
                                }
                                acc = Expression::BinOpExpr {
                                    op,
                                    left: Box::new(acc),
                                    right: Box::new(rhs),
                                };
                                cur = e2;
                            },
                        }
                    },
                }
            }
        },
    }
}

/// Parse a whole expression.
pub fn parse_expression(s: &[u8], pos: usize) -> (r: Option<(Expression, usize)>)
    requires
        pos <= s@.len(),
    ensures
        match r {
            Some((ex, e)) => sp_expression(s@, pos as int) == Some((ex@, e as int)) && pos < e
                <= s@.len(),
            None => sp_expression(s@, pos as int) is None,
        },
{
    parse_expr_level(5, s, pos)
}

/// The operator fold never moves backwards and stays in bounds.
pub proof fn lemma_chain_bounds(k: nat, acc: SpecExpression, s: Seq<u8>, i: int)
    requires
        1 <= k,
        0 <= i <= s.len(),
    ensures
        i <= sp_chain(k, acc, s, i).1 <= s.len(),
    decreases s.len() - i, 4int + 2 * k,
{
    match sp_binop_level(k, s, i) {
        None => {},
        Some((op, e1)) => {
            lemma_binop_level_bounds(k, s, i);
            match sp_expr_level((k - 1) as nat, s, e1) {
                None => {},
                Some((rhs, e2)) => {
                    lemma_level_bounds((k - 1) as nat, s, e1);
                    let next = SpecExpression::BinOpExpr {
                        op,
                        left: Box::new(acc),
                        right: Box::new(rhs),
                    };
                    lemma_chain_bounds(k, next, s, clamp(e2, e1, s.len() as int));
                },
            }
        },
    }
}

} // verus!
