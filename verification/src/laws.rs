//! Properties that relate several parts of the library, proved once and
//! for all inputs over the same spec functions the contracts use.
//!
//! Totality of evaluation needs no lemma of its own: the evaluators in
//! `eval` carry no `requires`, so verification itself shows they return a
//! value — `Some` or `None` for the strict reading, always a value for the
//! substituting one — and never panic, for every expression and every
//! environment.

use vstd::prelude::*;

use crate::binop::BinOp;
use crate::eval::{sp_eval, sp_eval_param, sp_eval_subst, VarsView};
use crate::interpret::{sp_interp_fresh, sp_interpret, InterpView, SpecInterpretValue};
use crate::command::sp_axis_of_byte;
use crate::lex::{
    alpha_end, alpha_guard_ok, digits_end, float_end, gt_end, is_alnum_or_underscore, is_alpha,
    is_ascii_ws, is_digit, is_space, lower, matches_ci_at, sp_lex_uint, sp_number_code,
    uint_val, ws_at,
};
use crate::parse_command::{
    sp_assignment, sp_axes, sp_axes_fold, sp_axis_word, sp_command, sp_gcode, sp_line, sp_mcode,
    sp_ocode, sp_scode, sp_tcode,
};
use crate::parse_expression::{
    clamp, sp_atan_rest, sp_atom, sp_binop_level, sp_chain, sp_exists_rest, sp_expr_level,
    sp_expression, sp_factor, sp_func_call, sp_func_name_at, sp_group, sp_match_op_at,
    sp_name_bytes, sp_named_param, sp_op_from_list, sp_param, sp_scan_name, name_region_ok,
};
use crate::spec_ast::{SpecCommand, SpecExpression, SpecParam};

verus! {

/// The byte sequence with every ASCII letter lowercased.
pub open spec fn lower_seq(s: Seq<u8>) -> Seq<u8> {
    s.map_values(|b: u8| lower(b))
}

/// Two bytes with the same lower-case form agree on every lexical class,
/// and are equal unless both are letters.
proof fn lemma_lower_eq_byte(a: u8, b: u8)
    requires
        lower(a) == lower(b),
    ensures
        is_alpha(a) == is_alpha(b),
        is_digit(a) == is_digit(b),
        is_space(a) == is_space(b),
        is_ascii_ws(a) == is_ascii_ws(b),
        is_alnum_or_underscore(a) == is_alnum_or_underscore(b),
        !is_alpha(a) ==> a == b,
{
}

/// Whitespace skipping agrees on case-equal inputs.
proof fn lemma_ws_at_ci(s1: Seq<u8>, s2: Seq<u8>, i: int)
    requires
        lower_seq(s1) == lower_seq(s2),
        0 <= i <= s1.len(),
    ensures
        s1.len() == s2.len(),
        ws_at(s1, i) == ws_at(s2, i),
    decreases s1.len() - i,
{
    assert(s1.len() == s2.len()) by {
        assert(lower_seq(s1).len() == s1.len());
        assert(lower_seq(s2).len() == s2.len());
    }
    if i < s1.len() {
        assert(lower(s1[i]) == lower(s2[i])) by {
            assert(lower_seq(s1)[i] == lower(s1[i]));
            assert(lower_seq(s2)[i] == lower(s2[i]));
        }
        lemma_lower_eq_byte(s1[i], s2[i]);
        if is_space(s1[i]) {
            lemma_ws_at_ci(s1, s2, i + 1);
        }
    }
}

/// The lower forms at one position agree.
proof fn lemma_lower_at(s1: Seq<u8>, s2: Seq<u8>, k: int)
    requires
        lower_seq(s1) == lower_seq(s2),
        0 <= k < s1.len(),
        s1.len() == s2.len(),
    ensures
        lower(s1[k]) == lower(s2[k]),
        is_alpha(s1[k]) == is_alpha(s2[k]),
        is_digit(s1[k]) == is_digit(s2[k]),
        is_space(s1[k]) == is_space(s2[k]),
        is_ascii_ws(s1[k]) == is_ascii_ws(s2[k]),
        is_alnum_or_underscore(s1[k]) == is_alnum_or_underscore(s2[k]),
        !is_alpha(s1[k]) ==> s1[k] == s2[k],
{
    assert(lower_seq(s1)[k] == lower(s1[k]));
    assert(lower_seq(s2)[k] == lower(s2[k]));
    lemma_lower_eq_byte(s1[k], s2[k]);
}

/// Digit scanning agrees on case-equal inputs.
proof fn lemma_digits_end_ci(s1: Seq<u8>, s2: Seq<u8>, i: int)
    requires
        lower_seq(s1) == lower_seq(s2),
        0 <= i <= s1.len(),
        s1.len() == s2.len(),
    ensures
        digits_end(s1, i) == digits_end(s2, i),
    decreases s1.len() - i,
{
    if i < s1.len() {
        lemma_lower_at(s1, s2, i);
        if is_digit(s1[i]) {
            lemma_digits_end_ci(s1, s2, i + 1);
        }
    }
}

/// Letter scanning agrees on case-equal inputs.
proof fn lemma_alpha_end_ci(s1: Seq<u8>, s2: Seq<u8>, i: int)
    requires
        lower_seq(s1) == lower_seq(s2),
        0 <= i <= s1.len(),
        s1.len() == s2.len(),
    ensures
        alpha_end(s1, i) == alpha_end(s2, i),
    decreases s1.len() - i,
{
    if i < s1.len() {
        lemma_lower_at(s1, s2, i);
        if is_alpha(s1[i]) {
            lemma_alpha_end_ci(s1, s2, i + 1);
        }
    }
}

/// The search for `>` agrees on case-equal inputs.
proof fn lemma_gt_end_ci(s1: Seq<u8>, s2: Seq<u8>, i: int)
    requires
        lower_seq(s1) == lower_seq(s2),
        0 <= i <= s1.len(),
        s1.len() == s2.len(),
    ensures
        gt_end(s1, i) == gt_end(s2, i),
    decreases s1.len() - i,
{
    if i < s1.len() {
        lemma_lower_at(s1, s2, i);
        if s1[i] != 62 {
            lemma_gt_end_ci(s1, s2, i + 1);
        }
    }
}

/// Digit runs carry the same value on case-equal inputs.
proof fn lemma_uint_val_ci(s1: Seq<u8>, s2: Seq<u8>, i: int, j: int)
    requires
        lower_seq(s1) == lower_seq(s2),
        0 <= i <= j <= s1.len(),
        s1.len() == s2.len(),
        forall|k: int| i <= k < j ==> is_digit(#[trigger] s1[k]),
    ensures
        uint_val(s1, i, j) == uint_val(s2, i, j),
    decreases j - i,
{
    if i < j {
        lemma_lower_at(s1, s2, j - 1);
        lemma_uint_val_ci(s1, s2, i, j - 1);
    }
}

/// Integer lexing agrees on case-equal inputs.
proof fn lemma_lex_uint_ci(s1: Seq<u8>, s2: Seq<u8>, i: int)
    requires
        lower_seq(s1) == lower_seq(s2),
        0 <= i <= s1.len(),
        s1.len() == s2.len(),
    ensures
        sp_lex_uint(s1, i) == sp_lex_uint(s2, i),
{
    lemma_digits_end_ci(s1, s2, i);
    crate::lex::lemma_digits_end_bounds(s1, i);
    lemma_uint_val_ci(s1, s2, i, digits_end(s1, i));
}

/// Float literals reach equally far and spell the same bytes on
/// case-equal inputs (a literal holds no letters).
proof fn lemma_float_ci(s1: Seq<u8>, s2: Seq<u8>, i: int)
    requires
        lower_seq(s1) == lower_seq(s2),
        0 <= i <= s1.len(),
        s1.len() == s2.len(),
    ensures
        float_end(s1, i) == float_end(s2, i),
        float_end(s1, i) > i ==> s1.subrange(i, float_end(s1, i)) == s2.subrange(
            i,
            float_end(s1, i),
        ),
{
    crate::lex::lemma_float_end_bounds(s1, i);
    if i < s1.len() {
        lemma_lower_at(s1, s2, i);
        lemma_digits_end_ci(s1, s2, i);
        lemma_digits_end_ci(s1, s2, i + 1);
        let ms = if s1[i] == 43 || s1[i] == 45 {
            i + 1
        } else {
            i
        };
        crate::lex::lemma_digits_end_bounds(s1, ms);
        lemma_digits_end_ci(s1, s2, ms);
        let de = digits_end(s1, ms);
        if de < s1.len() {
            lemma_lower_at(s1, s2, de);
        }
        if de > ms && de < s1.len() && s1[de] == 46 {
            lemma_digits_end_ci(s1, s2, de + 1);
        }
        if ms < s1.len() {
            lemma_lower_at(s1, s2, ms);
            lemma_digits_end_ci(s1, s2, ms + 1);
        }
    }
    let fe = float_end(s1, i);
    if fe > i {
        crate::lex::lemma_digits_end_bounds(s1, i);
        assert forall|k: int| i <= k < fe implies s1[k] == s2[k] by {
            lemma_lower_at(s1, s2, k);
            lemma_float_lit_byte(s1, i, k);
        }
        assert(s1.subrange(i, fe) =~= s2.subrange(i, fe));
    }
}

/// Every byte inside a float literal is a digit, a sign or a point —
/// never a letter.
proof fn lemma_float_lit_byte(s: Seq<u8>, i: int, k: int)
    requires
        0 <= i <= s.len(),
        i <= k < float_end(s, i),
    ensures
        !is_alpha(s[k]),
{
    crate::lex::lemma_digits_end_bounds(s, i);
    if i < s.len() {
        let ms = if s[i] == 43 || s[i] == 45 {
            i + 1
        } else {
            i
        };
        crate::lex::lemma_digits_end_bounds(s, ms);
        let de = digits_end(s, ms);
        if de > ms && de < s.len() && s[de] == 46 {
            crate::lex::lemma_digits_end_bounds(s, de + 1);
        }
        if ms < s.len() {
            crate::lex::lemma_digits_end_bounds(s, ms + 1);
        }
    }
}

/// Case-insensitive tag matching agrees on case-equal inputs.
proof fn lemma_matches_ci(s1: Seq<u8>, s2: Seq<u8>, i: int, t: Seq<u8>)
    requires
        lower_seq(s1) == lower_seq(s2),
        s1.len() == s2.len(),
    ensures
        matches_ci_at(s1, i, t) == matches_ci_at(s2, i, t),
{
    if 0 <= i && i + t.len() <= s1.len() {
        assert forall|k: int| 0 <= k < t.len() implies lower(s1[i + k]) == lower(
            #[trigger] s2[i + k],
        ) by {
            lemma_lower_at(s1, s2, i + k);
        }
    }
}

/// The guard after an alphabetic spelling agrees on case-equal inputs.
proof fn lemma_guard_ci(s1: Seq<u8>, s2: Seq<u8>, e: int)
    requires
        lower_seq(s1) == lower_seq(s2),
        s1.len() == s2.len(),
        0 <= e <= s1.len(),
    ensures
        alpha_guard_ok(s1, e) == alpha_guard_ok(s2, e),
{
    if e < s1.len() {
        lemma_lower_at(s1, s2, e);
    }
}

/// Operator matching agrees on case-equal inputs.
proof fn lemma_op_list_ci(ops: Seq<BinOp>, s1: Seq<u8>, s2: Seq<u8>, i: int)
    requires
        lower_seq(s1) == lower_seq(s2),
        s1.len() == s2.len(),
    ensures
        sp_op_from_list(ops, s1, i) == sp_op_from_list(ops, s2, i),
    decreases ops.len(),
{
    if ops.len() > 0 {
        lemma_matches_ci(s1, s2, i, crate::binop::spelling(ops[0]));
        if matches_ci_at(s1, i, crate::binop::spelling(ops[0])) {
            lemma_guard_ci(s1, s2, i + crate::binop::spelling(ops[0]).len());
        }
        assert(sp_match_op_at(s1, i, ops[0]) == sp_match_op_at(s2, i, ops[0]));
        lemma_op_list_ci(ops.drop_first(), s1, s2, i);
    }
}

/// Unary function names resolve equally on case-equal inputs.
proof fn lemma_func_name_ci(s1: Seq<u8>, s2: Seq<u8>, i: int)
    requires
        lower_seq(s1) == lower_seq(s2),
        0 <= i <= s1.len(),
        s1.len() == s2.len(),
    ensures
        sp_func_name_at(s1, i) == sp_func_name_at(s2, i),
{
    lemma_alpha_end_ci(s1, s2, i);
    lemma_matches_ci(s1, s2, i, seq![65u8, 66u8, 83u8]);
    lemma_matches_ci(s1, s2, i, seq![65u8, 67u8, 79u8, 83u8]);
    lemma_matches_ci(s1, s2, i, seq![65u8, 83u8, 73u8, 78u8]);
    lemma_matches_ci(s1, s2, i, seq![67u8, 79u8, 83u8]);
    lemma_matches_ci(s1, s2, i, seq![69u8, 88u8, 80u8]);
    lemma_matches_ci(s1, s2, i, seq![70u8, 73u8, 88u8]);
    lemma_matches_ci(s1, s2, i, seq![70u8, 85u8, 80u8]);
    lemma_matches_ci(s1, s2, i, seq![82u8, 79u8, 85u8, 78u8, 68u8]);
    lemma_matches_ci(s1, s2, i, seq![76u8, 78u8]);
    lemma_matches_ci(s1, s2, i, seq![83u8, 73u8, 78u8]);
    lemma_matches_ci(s1, s2, i, seq![83u8, 81u8, 82u8, 84u8]);
    lemma_matches_ci(s1, s2, i, seq![84u8, 65u8, 78u8]);
}

/// Name normalization agrees on case-equal inputs: the stored name is
/// lowercased either way.
proof fn lemma_name_bytes_ci(s1: Seq<u8>, s2: Seq<u8>, i: int, j: int)
    requires
        lower_seq(s1) == lower_seq(s2),
        0 <= i,
        j <= s1.len(),
        s1.len() == s2.len(),
    ensures
        sp_name_bytes(s1, i, j) == sp_name_bytes(s2, i, j),
    decreases j - i,
{
    if i < j {
        lemma_lower_at(s1, s2, i);
        lemma_name_bytes_ci(s1, s2, i + 1, j);
    }
}

/// Name scanning agrees on case-equal inputs.
proof fn lemma_scan_name_ci(s1: Seq<u8>, s2: Seq<u8>, i: int)
    requires
        lower_seq(s1) == lower_seq(s2),
        0 <= i <= s1.len(),
        s1.len() == s2.len(),
    ensures
        sp_scan_name(s1, i) == sp_scan_name(s2, i),
{
    lemma_gt_end_ci(s1, s2, i);
    crate::lex::lemma_gt_end_bounds(s1, i);
    let g = gt_end(s1, i);
    if name_region_ok(s1, i, g) {
        assert forall|k: int| i <= k < g implies is_alnum_or_underscore(#[trigger] s2[k])
            || is_ascii_ws(s2[k]) by {
            lemma_lower_at(s1, s2, k);
            assert(is_alnum_or_underscore(s1[k]) || is_ascii_ws(s1[k]));
        }
    }
    if name_region_ok(s2, i, g) {
        assert forall|k: int| i <= k < g implies is_alnum_or_underscore(#[trigger] s1[k])
            || is_ascii_ws(s1[k]) by {
            lemma_lower_at(s1, s2, k);
            assert(is_alnum_or_underscore(s2[k]) || is_ascii_ws(s2[k]));
        }
    }
    assert(name_region_ok(s1, i, g) == name_region_ok(s2, i, g));
    lemma_name_bytes_ci(s1, s2, i, g);
}

/// Named parameters parse equally on case-equal inputs.
proof fn lemma_named_param_ci(s1: Seq<u8>, s2: Seq<u8>, i: int)
    requires
        lower_seq(s1) == lower_seq(s2),
        0 <= i <= s1.len(),
        s1.len() == s2.len(),
    ensures
        sp_named_param(s1, i) == sp_named_param(s2, i),
{
    lemma_ws_at_ci(s1, s2, i);
    crate::lex::lemma_ws_at_bounds(s1, i);
    let h = ws_at(s1, i);
    if h < s1.len() {
        lemma_lower_at(s1, s2, h);
        if s1[h] == 35 {
            lemma_ws_at_ci(s1, s2, h + 1);
            crate::lex::lemma_ws_at_bounds(s1, h + 1);
            let a = ws_at(s1, h + 1);
            if a < s1.len() {
                lemma_lower_at(s1, s2, a);
                if s1[a] == 60 {
                    lemma_scan_name_ci(s1, s2, a + 1);
                }
            }
        }
    }
}

/// Parameters parse equally on case-equal inputs.
proof fn lemma_param_ci(s1: Seq<u8>, s2: Seq<u8>, i: int)
    requires
        lower_seq(s1) == lower_seq(s2),
        0 <= i <= s1.len(),
        s1.len() == s2.len(),
    ensures
        sp_param(s1, i) == sp_param(s2, i),
    decreases s1.len() - i, 2int,
{
    lemma_ws_at_ci(s1, s2, i);
    crate::lex::lemma_ws_at_bounds(s1, i);
    let h = ws_at(s1, i);
    if h < s1.len() {
        lemma_lower_at(s1, s2, h);
        if s1[h] == 35 {
            lemma_ws_at_ci(s1, s2, h + 1);
            crate::lex::lemma_ws_at_bounds(s1, h + 1);
            let a = ws_at(s1, h + 1);
            if a < s1.len() {
                lemma_lower_at(s1, s2, a);
            }
            if a < s1.len() && s1[a] == 60 {
                lemma_scan_name_ci(s1, s2, a + 1);
            } else {
                lemma_lex_uint_ci(s1, s2, a);
                if sp_lex_uint(s1, a) is None && a < s1.len() {
                    if s1[a] == 35 {
                        lemma_param_ci(s1, s2, a);
                    } else if s1[a] == 91 {
                        lemma_group_ci(s1, s2, a);
                    }
                }
            }
        }
    }
}

/// Function calls parse equally on case-equal inputs.
proof fn lemma_func_call_ci(s1: Seq<u8>, s2: Seq<u8>, i: int)
    requires
        lower_seq(s1) == lower_seq(s2),
        0 <= i <= s1.len(),
        s1.len() == s2.len(),
    ensures
        sp_func_call(s1, i) == sp_func_call(s2, i),
    decreases s1.len() - i, 2int,
{
    lemma_matches_ci(s1, s2, i, seq![65u8, 84u8, 65u8, 78u8]);
    lemma_matches_ci(s1, s2, i, seq![69u8, 88u8, 73u8, 83u8, 84u8, 83u8]);
    if matches_ci_at(s1, i, seq![65u8, 84u8, 65u8, 78u8]) {
        lemma_group_ci(s1, s2, i + 4);
        crate::parse_expression::lemma_group_bounds(s1, i + 4);
        match sp_group(s1, i + 4) {
            Some((arg_y, e1)) => {
                let c1 = clamp(e1, i + 5, s1.len() as int);
                lemma_ws_at_ci(s1, s2, c1);
                crate::lex::lemma_ws_at_bounds(s1, c1);
                let sl = ws_at(s1, c1);
                if sl < s1.len() {
                    lemma_lower_at(s1, s2, sl);
                }
                if sl < s1.len() && s1[sl] == 47 {
                    lemma_group_ci(s1, s2, sl + 1);
                }
            },
            None => {},
        }
        assert(sp_atan_rest(s1, i) == sp_atan_rest(s2, i));
    }
    if matches_ci_at(s1, i, seq![69u8, 88u8, 73u8, 83u8, 84u8, 83u8]) {
        lemma_ws_at_ci(s1, s2, i + 6);
        crate::lex::lemma_ws_at_bounds(s1, i + 6);
        let b = ws_at(s1, i + 6);
        if b < s1.len() {
            lemma_lower_at(s1, s2, b);
        }
        if b < s1.len() && s1[b] == 91 {
            lemma_named_param_ci(s1, s2, b + 1);
            crate::parse_expression::lemma_named_param_bounds(s1, b + 1);
            match sp_named_param(s1, b + 1) {
                Some((p, e)) => {
                    let c0 = clamp(e, b + 2, s1.len() as int);
                    lemma_ws_at_ci(s1, s2, c0);
                    crate::lex::lemma_ws_at_bounds(s1, c0);
                    let c = ws_at(s1, c0);
                    if c < s1.len() {
                        lemma_lower_at(s1, s2, c);
                    }
                },
                None => {},
            }
        }
        assert(sp_exists_rest(s1, i) == sp_exists_rest(s2, i));
    }
    lemma_func_name_ci(s1, s2, i);
    match sp_func_name_at(s1, i) {
        Some((name, e)) => {
            crate::lex::lemma_alpha_end_bounds(s1, i);
            lemma_group_ci(s1, s2, e);
        },
        None => {},
    }
}

/// Groups parse equally on case-equal inputs.
proof fn lemma_group_ci(s1: Seq<u8>, s2: Seq<u8>, i: int)
    requires
        lower_seq(s1) == lower_seq(s2),
        0 <= i <= s1.len(),
        s1.len() == s2.len(),
    ensures
        sp_group(s1, i) == sp_group(s2, i),
    decreases s1.len() - i, 1int,
{
    lemma_ws_at_ci(s1, s2, i);
    crate::lex::lemma_ws_at_bounds(s1, i);
    let h = ws_at(s1, i);
    if h < s1.len() {
        lemma_lower_at(s1, s2, h);
        if s1[h] == 91 {
            lemma_level_ci(5, s1, s2, h + 1);
            crate::parse_expression::lemma_level_bounds(5, s1, h + 1);
            match sp_expr_level(5, s1, h + 1) {
                Some((ex, e1)) => {
                    let c0 = clamp(e1, h + 2, s1.len() as int);
                    lemma_ws_at_ci(s1, s2, c0);
                    crate::lex::lemma_ws_at_bounds(s1, c0);
                    let c = ws_at(s1, c0);
                    if c < s1.len() {
                        lemma_lower_at(s1, s2, c);
                    }
                },
                None => {},
            }
        }
    }
}

/// Atoms parse equally on case-equal inputs.
proof fn lemma_atom_ci(s1: Seq<u8>, s2: Seq<u8>, i: int)
    requires
        lower_seq(s1) == lower_seq(s2),
        0 <= i <= s1.len(),
        s1.len() == s2.len(),
    ensures
        sp_atom(s1, i) == sp_atom(s2, i),
    decreases s1.len() - i, 3int,
{
    lemma_ws_at_ci(s1, s2, i);
    crate::lex::lemma_ws_at_bounds(s1, i);
    let h = ws_at(s1, i);
    lemma_func_call_ci(s1, s2, h);
    lemma_param_ci(s1, s2, h);
    lemma_float_ci(s1, s2, h);
}

/// Factors parse equally on case-equal inputs.
proof fn lemma_factor_ci(s1: Seq<u8>, s2: Seq<u8>, i: int)
    requires
        lower_seq(s1) == lower_seq(s2),
        0 <= i <= s1.len(),
        s1.len() == s2.len(),
    ensures
        sp_factor(s1, i) == sp_factor(s2, i),
    decreases s1.len() - i, 4int,
{
    lemma_atom_ci(s1, s2, i);
    lemma_group_ci(s1, s2, i);
}

/// Precedence levels parse equally on case-equal inputs.
proof fn lemma_level_ci(k: nat, s1: Seq<u8>, s2: Seq<u8>, i: int)
    requires
        lower_seq(s1) == lower_seq(s2),
        0 <= i <= s1.len(),
        s1.len() == s2.len(),
    ensures
        sp_expr_level(k, s1, i) == sp_expr_level(k, s2, i),
    decreases s1.len() - i, 5int + 2 * k,
{
    if k == 0 {
        lemma_factor_ci(s1, s2, i);
    } else {
        lemma_level_ci((k - 1) as nat, s1, s2, i);
        match sp_expr_level((k - 1) as nat, s1, i) {
            Some((first, e)) => {
                crate::parse_expression::lemma_level_bounds((k - 1) as nat, s1, i);
                lemma_chain_ci(k, first, s1, s2, clamp(e, i, s1.len() as int));
            },
            None => {},
        }
    }
}

/// The operator fold parses equally on case-equal inputs.
proof fn lemma_chain_ci(k: nat, acc: SpecExpression, s1: Seq<u8>, s2: Seq<u8>, i: int)
    requires
        1 <= k,
        lower_seq(s1) == lower_seq(s2),
        0 <= i <= s1.len(),
        s1.len() == s2.len(),
    ensures
        sp_chain(k, acc, s1, i) == sp_chain(k, acc, s2, i),
    decreases s1.len() - i, 4int + 2 * k,
{
    lemma_ws_at_ci(s1, s2, i);
    crate::lex::lemma_ws_at_bounds(s1, i);
    lemma_op_list_ci(crate::binop::level_ops(k as int), s1, s2, ws_at(s1, i));
    assert(sp_binop_level(k, s1, i) == sp_binop_level(k, s2, i));
    match sp_binop_level(k, s1, i) {
        None => {},
        Some((op, e1)) => {
            crate::parse_expression::lemma_binop_level_bounds(k, s1, i);
            lemma_level_ci((k - 1) as nat, s1, s2, e1);
            match sp_expr_level((k - 1) as nat, s1, e1) {
                None => {},
                Some((rhs, e2)) => {
                    crate::parse_expression::lemma_level_bounds((k - 1) as nat, s1, e1);
                    let next = SpecExpression::BinOpExpr {
                        op,
                        left: Box::new(acc),
                        right: Box::new(rhs),
                    };
                    lemma_chain_ci(k, next, s1, s2, clamp(e2, e1, s1.len() as int));
                },
            }
        },
    }
}

/// Case-insensitivity of the expression grammar: two inputs that agree up
/// to ASCII letter case parse to the same tree, ending at the same place.
/// Alphabetic operators, function names and `#<...>` names may be
/// twiddled freely; parameter names come out lowercased either way, and a
/// float literal holds no letters at all.
pub proof fn lemma_expression_case_insensitive(s1: Seq<u8>, s2: Seq<u8>, i: int)
    requires
        lower_seq(s1) == lower_seq(s2),
        0 <= i <= s1.len(),
    ensures
        sp_expression(s1, i) == sp_expression(s2, i),
{
    assert(s1.len() == s2.len()) by {
        assert(lower_seq(s1).len() == s1.len());
        assert(lower_seq(s2).len() == s2.len());
    }
    lemma_level_ci(5, s1, s2, i);
}

/// After interpreting `Assign(p, e)` with value `v`, reading `p` yields
/// `Some(v)`.
///
/// The target must be a direct parameter: an indirect target `#[i]` is
/// written at the index `i` had before the write, while a later read
/// evaluates `i` afresh, so the two can disagree when the write itself
/// changes `i`'s value.
pub proof fn lemma_assign_then_get(v: InterpView, p: SpecParam, e: SpecExpression)
    requires
        !(p is Expr),
    ensures
        ({
            let (v2, val) = sp_interpret(v, SpecCommand::Assign(p, e));
            &&& val == SpecInterpretValue::EvalExpr(sp_eval_subst(e, v.vars))
            &&& sp_eval_param(p, v2.vars) == Some(sp_eval_subst(e, v.vars))
        }),
{
}

/// Before any assignment, reading any parameter yields `None`: a fresh
/// interpreter binds nothing, and even an indirect read ends at the empty
/// numbered store.
pub proof fn lemma_fresh_get_none(v: InterpView, p: SpecParam)
    requires
        sp_interp_fresh(v),
    ensures
        sp_eval_param(p, v.vars) is None,
{
    match p {
        SpecParam::Expr(ie) => {
            match sp_eval(*ie, v.vars) {
                Some(_) => {},
                None => {},
            }
        },
        _ => {},
    }
}

/// Interpreting any command in any state leaves the feedrate and the
/// remembered position untouched: no supported command writes them.
pub proof fn lemma_interpret_preserves_motion_state(v: InterpView, c: SpecCommand)
    ensures
        sp_interpret(v, c).0.feedrate == v.feedrate,
        sp_interpret(v, c).0.abs_position == v.abs_position,
{
}


/// Numeric codes match equally on case-equal inputs.
proof fn lemma_number_code_ci(s1: Seq<u8>, s2: Seq<u8>, i: int, code: Seq<u8>)
    requires
        lower_seq(s1) == lower_seq(s2),
        s1.len() == s2.len(),
    ensures
        sp_number_code(s1, i, code) == sp_number_code(s2, i, code),
{
    lemma_matches_ci(s1, s2, i, code);
    if matches_ci_at(s1, i, code) && i + code.len() < s1.len() {
        lemma_lower_at(s1, s2, i + code.len());
    }
}

/// An axis letter names the same axis in either case.
proof fn lemma_axis_of_byte_ci(a: u8, b: u8)
    requires
        lower(a) == lower(b),
    ensures
        sp_axis_of_byte(a) == sp_axis_of_byte(b),
{
}

/// Axis words parse equally on case-equal inputs.
proof fn lemma_axis_word_ci(s1: Seq<u8>, s2: Seq<u8>, i: int)
    requires
        lower_seq(s1) == lower_seq(s2),
        0 <= i <= s1.len(),
        s1.len() == s2.len(),
    ensures
        sp_axis_word(s1, i) == sp_axis_word(s2, i),
{
    lemma_ws_at_ci(s1, s2, i);
    crate::lex::lemma_ws_at_bounds(s1, i);
    let h = ws_at(s1, i);
    if h < s1.len() {
        lemma_lower_at(s1, s2, h);
        lemma_axis_of_byte_ci(s1[h], s2[h]);
        if sp_axis_of_byte(s1[h]) is Some {
            lemma_level_ci(5, s1, s2, h + 1);
        }
    }
}

/// The axis-word fold parses equally on case-equal inputs.
proof fn lemma_axes_fold_ci(
    s1: Seq<u8>,
    s2: Seq<u8>,
    i: int,
    acc: Seq<Option<crate::spec_ast::SpecExpression>>,
)
    requires
        lower_seq(s1) == lower_seq(s2),
        0 <= i <= s1.len(),
        s1.len() == s2.len(),
    ensures
        sp_axes_fold(s1, i, acc) == sp_axes_fold(s2, i, acc),
    decreases s1.len() - i,
{
    lemma_axis_word_ci(s1, s2, i);
    crate::parse_command::lemma_axis_word_bounds(s1, i);
    match sp_axis_word(s1, i) {
        None => {},
        Some(((ax, ex), e)) => {
            if !(acc[crate::command::sp_axis_idx(ax)] is Some) {
                lemma_axes_fold_ci(
                    s1,
                    s2,
                    clamp(e, i + 1, s1.len() as int),
                    acc.update(crate::command::sp_axis_idx(ax), Some(ex)),
                );
            }
        },
    }
}

/// Axis-word lists parse equally on case-equal inputs.
proof fn lemma_axes_ci(s1: Seq<u8>, s2: Seq<u8>, i: int)
    requires
        lower_seq(s1) == lower_seq(s2),
        0 <= i <= s1.len(),
        s1.len() == s2.len(),
    ensures
        sp_axes(s1, i) == sp_axes(s2, i),
{
    lemma_axis_word_ci(s1, s2, i);
    if sp_axis_word(s1, i) is Some {
        lemma_axes_fold_ci(s1, s2, i, seq![None, None, None, None, None, None]);
    }
}

/// The G-code tail parses equally on case-equal inputs.
#[verifier::rlimit(60)]
proof fn lemma_gcode_ci(s1: Seq<u8>, s2: Seq<u8>, j: int)
    requires
        lower_seq(s1) == lower_seq(s2),
        0 <= j <= s1.len(),
        s1.len() == s2.len(),
    ensures
        sp_gcode(s1, j) == sp_gcode(s2, j),
{
    lemma_number_code_ci(s1, s2, j, seq![48u8]);
    lemma_number_code_ci(s1, s2, j, seq![49u8]);
    lemma_number_code_ci(s1, s2, j, seq![50u8, 48u8]);
    lemma_number_code_ci(s1, s2, j, seq![50u8, 49u8]);
    lemma_number_code_ci(s1, s2, j, seq![53u8, 51u8]);
    lemma_number_code_ci(s1, s2, j, seq![53u8, 52u8]);
    lemma_number_code_ci(s1, s2, j, seq![53u8, 53u8]);
    lemma_number_code_ci(s1, s2, j, seq![57u8, 48u8]);
    lemma_number_code_ci(s1, s2, j, seq![57u8, 49u8]);
    if sp_number_code(s1, j, seq![48u8]) is Some {
        let e = sp_number_code(s1, j, seq![48u8]).unwrap();
        assert(0 <= e <= s1.len());
        let w = ws_at(s1, e);
        lemma_ws_at_ci(s1, s2, e);
        crate::lex::lemma_ws_at_bounds(s1, e);
        lemma_axes_ci(s1, s2, w);
    } else if sp_number_code(s1, j, seq![49u8]) is Some {
        let e = sp_number_code(s1, j, seq![49u8]).unwrap();
        assert(0 <= e <= s1.len());
        let w = ws_at(s1, e);
        lemma_ws_at_ci(s1, s2, e);
        crate::lex::lemma_ws_at_bounds(s1, e);
        lemma_axes_ci(s1, s2, w);
    } else {
        lemma_ws_at_all_ci(s1, s2);
    }
}

/// Whitespace skipping agrees everywhere on case-equal inputs.
proof fn lemma_ws_at_all_ci(s1: Seq<u8>, s2: Seq<u8>)
    requires
        lower_seq(s1) == lower_seq(s2),
        s1.len() == s2.len(),
    ensures
        forall|p: int| 0 <= p <= s1.len() ==> #[trigger] ws_at(s1, p) == ws_at(s2, p),
{
    assert forall|p: int| 0 <= p <= s1.len() implies #[trigger] ws_at(s1, p) == ws_at(
        s2,
        p,
    ) by {
        lemma_ws_at_ci(s1, s2, p);
    }
}

/// A `T` word parses equally on case-equal inputs.
proof fn lemma_tcode_ci(s1: Seq<u8>, s2: Seq<u8>, i: int)
    requires
        lower_seq(s1) == lower_seq(s2),
        0 <= i <= s1.len(),
        s1.len() == s2.len(),
    ensures
        sp_tcode(s1, i) == sp_tcode(s2, i),
{
    lemma_ws_at_ci(s1, s2, i);
    crate::lex::lemma_ws_at_bounds(s1, i);
    let h = ws_at(s1, i);
    if h < s1.len() {
        lemma_lower_at(s1, s2, h);
        if lower(s1[h]) == 116 {
            lemma_ws_at_ci(s1, s2, h + 1);
            crate::lex::lemma_ws_at_bounds(s1, h + 1);
            lemma_lex_uint_ci(s1, s2, ws_at(s1, h + 1));
        }
    }
}

/// An `S` word parses equally on case-equal inputs.
proof fn lemma_scode_ci(s1: Seq<u8>, s2: Seq<u8>, i: int)
    requires
        lower_seq(s1) == lower_seq(s2),
        0 <= i <= s1.len(),
        s1.len() == s2.len(),
    ensures
        sp_scode(s1, i) == sp_scode(s2, i),
{
    lemma_ws_at_ci(s1, s2, i);
    crate::lex::lemma_ws_at_bounds(s1, i);
    let h = ws_at(s1, i);
    if h < s1.len() {
        lemma_lower_at(s1, s2, h);
        if lower(s1[h]) == 115 {
            lemma_ws_at_ci(s1, s2, h + 1);
            crate::lex::lemma_ws_at_bounds(s1, h + 1);
            lemma_float_ci(s1, s2, ws_at(s1, h + 1));
        }
    }
}

/// The M-code tail parses equally on case-equal inputs.
#[verifier::rlimit(60)]
proof fn lemma_mcode_ci(s1: Seq<u8>, s2: Seq<u8>, j: int)
    requires
        lower_seq(s1) == lower_seq(s2),
        0 <= j <= s1.len(),
        s1.len() == s2.len(),
    ensures
        sp_mcode(s1, j) == sp_mcode(s2, j),
{
    lemma_number_code_ci(s1, s2, j, seq![51u8]);
    lemma_number_code_ci(s1, s2, j, seq![52u8]);
    lemma_number_code_ci(s1, s2, j, seq![53u8]);
    lemma_number_code_ci(s1, s2, j, seq![54u8]);
    lemma_number_code_ci(s1, s2, j, seq![55u8]);
    lemma_number_code_ci(s1, s2, j, seq![56u8]);
    lemma_number_code_ci(s1, s2, j, seq![57u8]);
    lemma_ws_at_all_ci(s1, s2);
    if sp_number_code(s1, j, seq![51u8]) is None && sp_number_code(s1, j, seq![52u8]) is None
        && sp_number_code(s1, j, seq![53u8]) is None && sp_number_code(s1, j, seq![54u8])
        is Some {
        let e = sp_number_code(s1, j, seq![54u8]).unwrap();
        assert(0 <= e <= s1.len());
        crate::lex::lemma_ws_at_bounds(s1, e);
        lemma_tcode_ci(s1, s2, ws_at(s1, e));
    }
}

/// The O-word tail parses equally on case-equal inputs.
proof fn lemma_ocode_ci(s1: Seq<u8>, s2: Seq<u8>, j: int)
    requires
        lower_seq(s1) == lower_seq(s2),
        0 <= j <= s1.len(),
        s1.len() == s2.len(),
    ensures
        sp_ocode(s1, j) == sp_ocode(s2, j),
{
    lemma_lex_uint_ci(s1, s2, j);
    match sp_lex_uint(s1, j) {
        None => {},
        Some((id, e1)) => {
            crate::lex::lemma_digits_end_bounds(s1, j);
            lemma_ws_at_ci(s1, s2, e1);
            crate::lex::lemma_ws_at_bounds(s1, e1);
            let w = ws_at(s1, e1);
            lemma_matches_ci(s1, s2, w, seq![115u8, 117u8, 98u8]);
            lemma_matches_ci(s1, s2, w, seq![101u8, 110u8, 100u8, 115u8, 117u8, 98u8]);
            lemma_matches_ci(s1, s2, w, seq![105u8, 102u8]);
            lemma_matches_ci(s1, s2, w, seq![101u8, 110u8, 100u8, 105u8, 102u8]);
            if matches_ci_at(s1, w, seq![105u8, 102u8]) {
                lemma_level_ci(5, s1, s2, w + 2);
            }
        },
    }
}

/// Assignments parse equally on case-equal inputs.
proof fn lemma_assignment_ci(s1: Seq<u8>, s2: Seq<u8>, h: int)
    requires
        lower_seq(s1) == lower_seq(s2),
        0 <= h <= s1.len(),
        s1.len() == s2.len(),
    ensures
        sp_assignment(s1, h) == sp_assignment(s2, h),
{
    lemma_param_ci(s1, s2, h);
    match sp_param(s1, h) {
        None => {},
        Some((p, e1)) => {
            crate::parse_expression::lemma_param_bounds(s1, h);
            let c = clamp(e1, h + 1, s1.len() as int);
            lemma_ws_at_ci(s1, s2, c);
            crate::lex::lemma_ws_at_bounds(s1, c);
            let q = ws_at(s1, c);
            if q < s1.len() {
                lemma_lower_at(s1, s2, q);
                if s1[q] == 61 {
                    lemma_level_ci(5, s1, s2, q + 1);
                }
            }
        },
    }
}

/// Case-insensitivity of the command grammar: two lines that agree up to
/// ASCII letter case and do not open a comment parse to the same command,
/// ending at the same place.  A comment is carved out because its text is
/// kept as written, case and all; everything else — code letters, numeric
/// codes, keywords, operators, function and parameter names — parses the
/// same either way.
pub proof fn lemma_command_case_insensitive(s1: Seq<u8>, s2: Seq<u8>, i: int)
    requires
        lower_seq(s1) == lower_seq(s2),
        0 <= i <= s1.len(),
        !(ws_at(s1, i) < s1.len() && s1[ws_at(s1, i)] == 40),
    ensures
        sp_command(s1, i) == sp_command(s2, i),
{
    assert(s1.len() == s2.len()) by {
        assert(lower_seq(s1).len() == s1.len());
        assert(lower_seq(s2).len() == s2.len());
    }
    lemma_ws_at_ci(s1, s2, i);
    crate::lex::lemma_ws_at_bounds(s1, i);
    let h = ws_at(s1, i);
    if h < s1.len() {
        lemma_lower_at(s1, s2, h);
        if s1[h] == 35 {
            lemma_assignment_ci(s1, s2, h);
        } else if lower(s1[h]) == 103 {
            lemma_gcode_ci(s1, s2, h + 1);
        } else if lower(s1[h]) == 109 {
            lemma_mcode_ci(s1, s2, h + 1);
        } else if lower(s1[h]) == 111 {
            lemma_ocode_ci(s1, s2, h + 1);
        } else if lower(s1[h]) == 115 {
            lemma_scode_ci(s1, s2, i);
        } else if lower(s1[h]) == 116 {
            lemma_tcode_ci(s1, s2, i);
        }
    }
}

/// The same, for a whole line: the trailing-whitespace check agrees too.
pub proof fn lemma_line_case_insensitive(s1: Seq<u8>, s2: Seq<u8>)
    requires
        lower_seq(s1) == lower_seq(s2),
        !(ws_at(s1, 0) < s1.len() && s1[ws_at(s1, 0)] == 40),
    ensures
        sp_line(s1) == sp_line(s2),
{
    assert(s1.len() == s2.len()) by {
        assert(lower_seq(s1).len() == s1.len());
        assert(lower_seq(s2).len() == s2.len());
    }
    lemma_command_case_insensitive(s1, s2, 0);
    match sp_command(s1, 0) {
        None => {},
        Some((c, e)) => {
            lemma_ws_at_ci(s1, s2, clamp(e, 0, s1.len() as int));
        },
    }
}

} // verus!
