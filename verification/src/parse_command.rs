//! The command grammar: comments, assignments, and the G/M/O/S/T code
//! families, dispatched on the first significant byte of a line.

use vstd::prelude::*;

use crate::expression::Expression;
use crate::fbits::FloatBits;
use crate::command::{
    sp_axis_idx, sp_axis_of_byte, Axes, Axis, Command, Gcode, Mcode, Ocode,
    OcodeStatement, Scode, Tcode,
};
use crate::lex;
use crate::lex::{
    byte_at, float_end, lower, matches_ci_at, rparen_end, sp_lex_uint, sp_number_code, ws_at,
};
use crate::parse_expression::{
    clamp, lemma_level_bounds, parse_expression, parse_param, sp_expression, sp_param,
};
use crate::spec_ast::{SpecCommand, SpecExpression, SpecGcode, SpecOcode, SpecOcodeStatement};
use crate::text::{all_ascii, bytes_to_string, f32_of_literal, parse_float_bits, utf8_decode};

verus! {

broadcast use {
    crate::lex::lemma_ws_at_bounds,
    crate::lex::lemma_digits_end_bounds,
    crate::lex::lemma_float_end_bounds,
    crate::lex::lemma_rparen_end_bounds,
};

/// One axis word: an axis letter followed by an expression.
pub open spec fn sp_axis_word(s: Seq<u8>, i: int) -> Option<((Axis, SpecExpression), int)> {
    let h = ws_at(s, i);
    if h < s.len() && sp_axis_of_byte(s[h]) is Some {
        match sp_expression(s, h + 1) {
            Some((ex, e)) => Some(((sp_axis_of_byte(s[h]).unwrap(), ex), e)),
            None => None,
        }
    } else {
        None
    }
}

/// A successful axis word consumes at least one byte and stays in bounds.
pub proof fn lemma_axis_word_bounds(s: Seq<u8>, i: int)
    requires
        0 <= i <= s.len(),
    ensures
        match sp_axis_word(s, i) {
            Some((w, e)) => i < e <= s.len(),
            None => true,
        },
{
    let h = ws_at(s, i);
    if h < s.len() && sp_axis_of_byte(s[h]) is Some {
        lemma_level_bounds(5, s, h + 1);
    }
}

/// Fold axis words into the slot map, left to right; the fold stops before
/// a word that repeats an axis already set.
pub open spec fn sp_axes_fold(s: Seq<u8>, i: int, acc: Seq<Option<SpecExpression>>) -> (
    Seq<Option<SpecExpression>>,
    int,
)
    decreases s.len() - i
        when 0 <= i <= s.len()
        via sp_axes_fold_decreases
{
    match sp_axis_word(s, i) {
        None => (acc, i),
        Some(((ax, ex), e)) => {
            if acc[sp_axis_idx(ax)] is Some {
                (acc, i)
            } else {
                sp_axes_fold(s, clamp(e, i + 1, s.len() as int), acc.update(sp_axis_idx(ax), Some(ex)))
            }
        },
    }
}

#[via_fn]
proof fn sp_axes_fold_decreases(s: Seq<u8>, i: int, acc: Seq<Option<SpecExpression>>) {
    lemma_axis_word_bounds(s, i);
}

/// One or more axis words, each axis set at most once.
pub open spec fn sp_axes(s: Seq<u8>, i: int) -> Option<(Seq<Option<SpecExpression>>, int)> {
    if sp_axis_word(s, i) is Some {
        Some(sp_axes_fold(s, i, seq![None, None, None, None, None, None]))
    } else {
        None
    }
}

/// Parse one or more axis words.
pub fn parse_axes(s: &[u8], pos: usize) -> (r: Option<(Axes, usize)>)
    requires
        pos <= s@.len(),
    ensures
        match r {
            Some((a, e)) => sp_axes(s@, pos as int) == Some(
                (crate::spec_ast::sp_view_axes(a), e as int),
            ) && pos < e <= s@.len(),
            None => sp_axes(s@, pos as int) is None,
        },
{
    match parse_axis_word(s, pos) {
        None => None,
        Some(_) => {
            let ghost target = sp_axes_fold(s@, pos as int, seq![None, None, None, None, None, None]);
            let mut acc = Axes::new();
            let mut cur: usize = pos;
            let mut first = true;
            proof {
                assert(crate::spec_ast::sp_view_axes(acc) =~= seq![None, None, None, None, None, None]);
            }
            loop
                invariant
                    pos <= cur <= s@.len(),
                    first ==> cur == pos,
                    first ==> crate::spec_ast::sp_view_axes(acc) =~= seq![
                        None,
                        None,
                        None,
                        None,
                        None,
                        None,
                    ],
                    !first ==> pos < cur,
                    acc@.len() == crate::NUM_AXES,
                    sp_axes_fold(s@, cur as int, crate::spec_ast::sp_view_axes(acc)) == target,
                    sp_axis_word(s@, pos as int) is Some,
                    target == sp_axes_fold(
                        s@,
                        pos as int,
                        seq![None, None, None, None, None, None],
                    ),
                decreases s@.len() - cur + (if first {
                    1int
                } else {
                    0int
                }),
            {
                match parse_axis_word(s, cur) {
                    None => {
                        proof {
                            assert(target == (crate::spec_ast::sp_view_axes(acc), cur as int));
                        }
                        if first {
                            // the first word parsed above, so the fold starts non-empty
                            proof {
                                assert(false);
                            }
                        }
                        return Some((acc, cur));
                    },
                    Some(((ax, ex), e)) => {
                        proof {
                            assert(clamp(e as int, cur + 1, s@.len() as int) == e as int);
                        }
                        if acc.get(ax).is_some() {
                            proof {
                                assert(crate::spec_ast::sp_view_axes(acc)[sp_axis_idx(ax)]
                                    is Some);
                                assert(!first);
                                assert(target == (
                                    crate::spec_ast::sp_view_axes(acc),
                                    cur as int,
                                ));
                            }
                            return Some((acc, cur));
                        }
                        proof {
                            assert(crate::spec_ast::sp_view_axes(acc)[sp_axis_idx(ax)] is None);
                        }
                        let ghost old_view = crate::spec_ast::sp_view_axes(acc);
                        acc = acc.set(ax, ex);
                        proof {
                            assert(crate::spec_ast::sp_view_axes(acc) =~= old_view.update(
                                sp_axis_idx(ax),
                                Some(ex@),
                            ));
                        }
                        cur = e;
                        first = false;
                    },
                }
            }
        },
    }
}

/// Parse one axis word.
pub fn parse_axis_word(s: &[u8], pos: usize) -> (r: Option<((Axis, Expression), usize)>)
    requires
        pos <= s@.len(),
    ensures
        match r {
            Some(((ax, ex), e)) => sp_axis_word(s@, pos as int) == Some(
                ((ax, ex@), e as int),
            ) && pos < e <= s@.len(),
            None => sp_axis_word(s@, pos as int) is None,
        },
{
    let n = s.len();
    let h = lex::skip_ws(s, pos);
    if h == n {
        return None;
    }
    match Axis::from_byte(s[h]) {
        None => None,
        Some(ax) => match parse_expression(s, h + 1) {
            Some((ex, e)) => Some(((ax, ex), e)),
            None => None,
        },
    }
}

/// A comment: `(`, at least one byte of text, `)`; the text must decode as
/// UTF-8.
pub open spec fn sp_comment(s: Seq<u8>, h: int) -> Option<(SpecCommand, int)> {
    let c = rparen_end(s, h + 1);
    if c < s.len() && c > h + 1 {
        match utf8_decode(s.subrange(h + 1, c)) {
            Some(txt) => Some((SpecCommand::Comment(txt), c + 1)),
            None => None,
        }
    } else {
        None
    }
}

/// Whether a comment's shape is present but its body is not UTF-8.
pub open spec fn sp_comment_bad_utf8(s: Seq<u8>, h: int) -> bool {
    let c = rparen_end(s, h + 1);
    c < s.len() && c > h + 1 && utf8_decode(s.subrange(h + 1, c)) is None
}

/// An assignment: parameter, `=`, expression.
pub open spec fn sp_assignment(s: Seq<u8>, h: int) -> Option<(SpecCommand, int)> {
    match sp_param(s, h) {
        Some((p, e1)) => {
            let q = ws_at(s, clamp(e1, h + 1, s.len() as int));
            if byte_at(s, q, 61) {  // =
                match sp_expression(s, q + 1) {
                    Some((ex, e2)) => Some((SpecCommand::Assign(p, ex), e2)),
                    None => None,
                }
            } else {
                None
            }
        },
        None => None,
    }
}

/// The G-code sub-grammar after the letter: a numeric code, whitespace,
/// then the code's arguments.
pub open spec fn sp_gcode(s: Seq<u8>, j: int) -> Option<(SpecGcode, int)> {
    if sp_number_code(s, j, seq![48u8]) is Some {  // 0
        let w = ws_at(s, sp_number_code(s, j, seq![48u8]).unwrap());
        match sp_axes(s, w) {
            Some((m, e)) => Some((SpecGcode::G0(Some(m)), e)),
            None => Some((SpecGcode::G0(None), w)),
        }
    } else if sp_number_code(s, j, seq![49u8]) is Some {  // 1
        let w = ws_at(s, sp_number_code(s, j, seq![49u8]).unwrap());
        match sp_axes(s, w) {
            Some((m, e)) => Some((SpecGcode::G1(m), e)),
            None => None,
        }
    } else if sp_number_code(s, j, seq![50u8, 48u8]) is Some {  // 20
        Some((SpecGcode::G20, ws_at(s, sp_number_code(s, j, seq![50u8, 48u8]).unwrap())))
    } else if sp_number_code(s, j, seq![50u8, 49u8]) is Some {  // 21
        Some((SpecGcode::G21, ws_at(s, sp_number_code(s, j, seq![50u8, 49u8]).unwrap())))
    } else if sp_number_code(s, j, seq![53u8, 51u8]) is Some {  // 53
        Some((SpecGcode::G53, ws_at(s, sp_number_code(s, j, seq![53u8, 51u8]).unwrap())))
    } else if sp_number_code(s, j, seq![53u8, 52u8]) is Some {  // 54
        Some((SpecGcode::G54, ws_at(s, sp_number_code(s, j, seq![53u8, 52u8]).unwrap())))
    } else if sp_number_code(s, j, seq![53u8, 53u8]) is Some {  // 55
        Some((SpecGcode::G55, ws_at(s, sp_number_code(s, j, seq![53u8, 53u8]).unwrap())))
    } else if sp_number_code(s, j, seq![57u8, 48u8]) is Some {  // 90
        Some((SpecGcode::G90, ws_at(s, sp_number_code(s, j, seq![57u8, 48u8]).unwrap())))
    } else if sp_number_code(s, j, seq![57u8, 49u8]) is Some {  // 91
        Some((SpecGcode::G91, ws_at(s, sp_number_code(s, j, seq![57u8, 49u8]).unwrap())))
    } else {
        None
    }
}

/// A `T` word: the letter and an unsigned tool number.  The data model
/// carries the tool number as a plain integer, so the word takes a
/// numeric literal here, not a general expression.
pub open spec fn sp_tcode(s: Seq<u8>, i: int) -> Option<(Tcode, int)> {
    let h = ws_at(s, i);
    if h < s.len() && lower(s[h]) == 116 {  // t
        match sp_lex_uint(s, ws_at(s, h + 1)) {
            Some((v, e)) => Some((Tcode(v), e)),
            None => None,
        }
    } else {
        None
    }
}

/// An `S` word: the letter and a float literal spindle speed.  The data
/// model carries the speed as a plain value, so the word takes a numeric
/// literal here, not a general expression: `S [1+2]` is rejected.
pub open spec fn sp_scode(s: Seq<u8>, i: int) -> Option<(Scode, int)> {
    let h = ws_at(s, i);
    if h < s.len() && lower(s[h]) == 115 {  // s
        let w = ws_at(s, h + 1);
        let fe = float_end(s, w);
        if fe > w {
            Some((Scode(FloatBits(f32_of_literal(s.subrange(w, fe)))), fe))
        } else {
            None
        }
    } else {
        None
    }
}

/// The M-code sub-grammar after the letter; `M6` may carry a tool word.
pub open spec fn sp_mcode(s: Seq<u8>, j: int) -> Option<(Mcode, int)> {
    if sp_number_code(s, j, seq![51u8]) is Some {  // 3
        Some((Mcode::M3, ws_at(s, sp_number_code(s, j, seq![51u8]).unwrap())))
    } else if sp_number_code(s, j, seq![52u8]) is Some {  // 4
        Some((Mcode::M4, ws_at(s, sp_number_code(s, j, seq![52u8]).unwrap())))
    } else if sp_number_code(s, j, seq![53u8]) is Some {  // 5
        Some((Mcode::M5, ws_at(s, sp_number_code(s, j, seq![53u8]).unwrap())))
    } else if sp_number_code(s, j, seq![54u8]) is Some {  // 6
        let w = ws_at(s, sp_number_code(s, j, seq![54u8]).unwrap());
        match sp_tcode(s, w) {
            Some((t, e)) => Some((Mcode::M6(Some(t)), e)),
            None => Some((Mcode::M6(None), w)),
        }
    } else if sp_number_code(s, j, seq![55u8]) is Some {  // 7
        Some((Mcode::M7, ws_at(s, sp_number_code(s, j, seq![55u8]).unwrap())))
    } else if sp_number_code(s, j, seq![56u8]) is Some {  // 8
        Some((Mcode::M8, ws_at(s, sp_number_code(s, j, seq![56u8]).unwrap())))
    } else if sp_number_code(s, j, seq![57u8]) is Some {  // 9
        Some((Mcode::M9, ws_at(s, sp_number_code(s, j, seq![57u8]).unwrap())))
    } else {
        None
    }
}

/// The O-word sub-grammar after the letter: the id directly, then one of
/// `sub`, `endsub`, `if expr`, `endif`, case-insensitively.
pub open spec fn sp_ocode(s: Seq<u8>, j: int) -> Option<(SpecOcode, int)> {
    match sp_lex_uint(s, j) {
        Some((id, e1)) => {
            let w = ws_at(s, e1);
            if matches_ci_at(s, w, seq![115u8, 117u8, 98u8]) {  // sub
                Some((SpecOcode { id, statement: SpecOcodeStatement::Sub }, w + 3))
            } else if matches_ci_at(s, w, seq![101u8, 110u8, 100u8, 115u8, 117u8, 98u8]) {  // endsub
                Some((SpecOcode { id, statement: SpecOcodeStatement::EndSub }, w + 6))
            } else if matches_ci_at(s, w, seq![105u8, 102u8]) && sp_expression(s, w + 2) is Some {  // if
                let (ex, e2) = sp_expression(s, w + 2).unwrap();
                Some((SpecOcode { id, statement: SpecOcodeStatement::If(ex) }, e2))
            } else if matches_ci_at(s, w, seq![101u8, 110u8, 100u8, 105u8, 102u8]) {  // endif
                Some((SpecOcode { id, statement: SpecOcodeStatement::EndIf }, w + 5))
            } else {
                None
            }
        },
        None => None,
    }
}

/// A whole command: after leading whitespace, a comment, an assignment, or
/// a code word introduced by its letter.
pub open spec fn sp_command(s: Seq<u8>, i: int) -> Option<(SpecCommand, int)> {
    let h = ws_at(s, i);
    if h >= s.len() {
        None
    } else if s[h] == 40 {  // (
        sp_comment(s, h)
    } else if s[h] == 35 {  // #
        sp_assignment(s, h)
    } else if lower(s[h]) == 103 {  // g
        match sp_gcode(s, h + 1) {
            Some((g, e)) => Some((SpecCommand::G(g), e)),
            None => None,
        }
    } else if lower(s[h]) == 109 {  // m
        match sp_mcode(s, h + 1) {
            Some((m, e)) => Some((SpecCommand::M(m), e)),
            None => None,
        }
    } else if lower(s[h]) == 111 {  // o
        match sp_ocode(s, h + 1) {
            Some((o, e)) => Some((SpecCommand::O(o), e)),
            None => None,
        }
    } else if lower(s[h]) == 115 {  // s
        match sp_scode(s, i) {
            Some((sc, e)) => Some((SpecCommand::S(sc), e)),
            None => None,
        }
    } else if lower(s[h]) == 116 {  // t
        match sp_tcode(s, i) {
            Some((t, e)) => Some((SpecCommand::T(t), e)),
            None => None,
        }
    } else {
        None
    }
}

/// Parse a comment at `h`, which must hold `(`.  The second clause pins
/// the text itself whenever the body is ASCII: it is exactly the bytes
/// between the parentheses, one character per byte.
fn parse_comment(s: &[u8], h: usize) -> (r: Option<(Command, usize)>)
    requires
        h < s@.len(),
        s@[h as int] == 40,
    ensures
        match r {
            Some((c, e)) => sp_comment(s@, h as int) == Some((c@, e as int)) && h < e
                <= s@.len(),
            None => sp_comment(s@, h as int) is None,
        },
        match r {
            Some((c, e)) => all_ascii(s@.subrange(h + 1, rparen_end(s@, h + 1))) ==> c@
                == SpecCommand::Comment(
                s@.subrange(h + 1, rparen_end(s@, h + 1)).map_values(|b: u8| b as char),
            ),
            None => true,
        },
{
    let n = s.len();
    let c = lex::scan_rparen(s, h + 1);
    if c == n || c == h + 1 {
        return None;
    }
    let body = vstd::slice::slice_subrange(s, h + 1, c);
    match bytes_to_string(body) {
        Some(txt) => Some((Command::Comment(txt), c + 1)),
        None => None,
    }
}

/// Parse an assignment at `h`, which must hold `#`.
fn parse_assignment(s: &[u8], h: usize) -> (r: Option<(Command, usize)>)
    requires
        h <= s@.len(),
    ensures
        match r {
            Some((c, e)) => sp_assignment(s@, h as int) == Some((c@, e as int)) && h < e
                <= s@.len(),
            None => sp_assignment(s@, h as int) is None,
        },
{
    let n = s.len();
    match parse_param(s, h) {
        Some((p, e1)) => {
            proof {
                assert(clamp(e1 as int, h + 1, s@.len() as int) == e1 as int);
            }
            let q = lex::skip_ws(s, e1);
            if !lex::match_byte(s, q, 61) {
                return None;
            }
            proof {
                assert(q < n);
            }
            match parse_expression(s, q + 1) {
                Some((ex, e2)) => Some((Command::Assign(p, ex), e2)),
                None => None,
            }
        },
        None => None,
    }
}

/// Parse the G-code tail at `j` (after the letter).
#[verifier::rlimit(60)]
fn parse_gcode(s: &[u8], j: usize) -> (r: Option<(Gcode, usize)>)
    requires
        j <= s@.len(),
    ensures
        match r {
            Some((g, e)) => sp_gcode(s@, j as int) == Some((g@, e as int)) && j <= e
                <= s@.len(),
            None => sp_gcode(s@, j as int) is None,
        },
{
    let c0: Vec<u8> = vec![48u8];
    let c1: Vec<u8> = vec![49u8];
    let c20: Vec<u8> = vec![50u8, 48];
    let c21: Vec<u8> = vec![50u8, 49];
    let c53: Vec<u8> = vec![53u8, 51];
    let c54: Vec<u8> = vec![53u8, 52];
    let c55: Vec<u8> = vec![53u8, 53];
    let c90: Vec<u8> = vec![57u8, 48];
    let c91: Vec<u8> = vec![57u8, 49];
    proof {
        assert(c0@ == seq![48u8]);
        assert(c1@ == seq![49u8]);
        assert(c20@ == seq![50u8, 48u8]);
        assert(c21@ == seq![50u8, 49u8]);
        assert(c53@ == seq![53u8, 51u8]);
        assert(c54@ == seq![53u8, 52u8]);
        assert(c55@ == seq![53u8, 53u8]);
        assert(c90@ == seq![57u8, 48u8]);
        assert(c91@ == seq![57u8, 49u8]);
    }
    if let Some(e) = lex::number_code(s, j, c0.as_slice()) {
        let w = lex::skip_ws(s, e);
        match parse_axes(s, w) {
            Some((m, e2)) => Some((Gcode::G0(Some(m)), e2)),
            None => Some((Gcode::G0(None), w)),
        }
    } else if let Some(e) = lex::number_code(s, j, c1.as_slice()) {
        let w = lex::skip_ws(s, e);
        match parse_axes(s, w) {
            Some((m, e2)) => Some((Gcode::G1(m), e2)),
            None => None,
        }
    } else if let Some(e) = lex::number_code(s, j, c20.as_slice()) {
        Some((Gcode::G20, lex::skip_ws(s, e)))
    } else if let Some(e) = lex::number_code(s, j, c21.as_slice()) {
        Some((Gcode::G21, lex::skip_ws(s, e)))
    } else if let Some(e) = lex::number_code(s, j, c53.as_slice()) {
        Some((Gcode::G53, lex::skip_ws(s, e)))
    } else if let Some(e) = lex::number_code(s, j, c54.as_slice()) {
        Some((Gcode::G54, lex::skip_ws(s, e)))
    } else if let Some(e) = lex::number_code(s, j, c55.as_slice()) {
        Some((Gcode::G55, lex::skip_ws(s, e)))
    } else if let Some(e) = lex::number_code(s, j, c90.as_slice()) {
        Some((Gcode::G90, lex::skip_ws(s, e)))
    } else if let Some(e) = lex::number_code(s, j, c91.as_slice()) {
        Some((Gcode::G91, lex::skip_ws(s, e)))
    } else {
        None
    }
}

/// Parse a `T` word.
pub fn parse_tcode(s: &[u8], pos: usize) -> (r: Option<(Tcode, usize)>)
    requires
        pos <= s@.len(),
    ensures
        match r {
            Some((t, e)) => sp_tcode(s@, pos as int) == Some((t, e as int)) && pos < e
                <= s@.len(),
            None => sp_tcode(s@, pos as int) is None,
        },
{
    let n = s.len();
    let h = lex::skip_ws(s, pos);
    if h == n {
        return None;
    }
    if lex::lower_exec(s[h]) != 116 {
        return None;
    }
    let w = lex::skip_ws(s, h + 1);
    match lex::lex_uint(s, w) {
        Some((v, e)) => Some((Tcode(v), e)),
        None => None,
    }
}

/// Parse an `S` word.
pub fn parse_scode(s: &[u8], pos: usize) -> (r: Option<(Scode, usize)>)
    requires
        pos <= s@.len(),
    ensures
        match r {
            Some((sc, e)) => sp_scode(s@, pos as int) == Some((sc, e as int)) && pos < e
                <= s@.len(),
            None => sp_scode(s@, pos as int) is None,
        },
{
    let n = s.len();
    let h = lex::skip_ws(s, pos);
    if h == n {
        return None;
    }
    if lex::lower_exec(s[h]) != 115 {
        return None;
    }
    let w = lex::skip_ws(s, h + 1);
    let fe = lex::scan_float(s, w);
    if fe > w {
        Some((Scode(parse_float_bits(s, w, fe)), fe))
    } else {
        None
    }
}

/// Parse the M-code tail at `j` (after the letter).
#[verifier::rlimit(60)]
fn parse_mcode(s: &[u8], j: usize) -> (r: Option<(Mcode, usize)>)
    requires
        j <= s@.len(),
    ensures
        match r {
            Some((m, e)) => sp_mcode(s@, j as int) == Some((m, e as int)) && j <= e
                <= s@.len(),
            None => sp_mcode(s@, j as int) is None,
        },
{
    let c3: Vec<u8> = vec![51u8];
    let c4: Vec<u8> = vec![52u8];
    let c5: Vec<u8> = vec![53u8];
    let c6: Vec<u8> = vec![54u8];
    let c7: Vec<u8> = vec![55u8];
    let c8: Vec<u8> = vec![56u8];
    let c9: Vec<u8> = vec![57u8];
    proof {
        assert(c3@ == seq![51u8]);
        assert(c4@ == seq![52u8]);
        assert(c5@ == seq![53u8]);
        assert(c6@ == seq![54u8]);
        assert(c7@ == seq![55u8]);
        assert(c8@ == seq![56u8]);
        assert(c9@ == seq![57u8]);
    }
    if let Some(e) = lex::number_code(s, j, c3.as_slice()) {
        Some((Mcode::M3, lex::skip_ws(s, e)))
    } else if let Some(e) = lex::number_code(s, j, c4.as_slice()) {
        Some((Mcode::M4, lex::skip_ws(s, e)))
    } else if let Some(e) = lex::number_code(s, j, c5.as_slice()) {
        Some((Mcode::M5, lex::skip_ws(s, e)))
    } else if let Some(e) = lex::number_code(s, j, c6.as_slice()) {
        let w = lex::skip_ws(s, e);
        match parse_tcode(s, w) {
            Some((t, e2)) => Some((Mcode::M6(Some(t)), e2)),
            None => Some((Mcode::M6(None), w)),
        }
    } else if let Some(e) = lex::number_code(s, j, c7.as_slice()) {
        Some((Mcode::M7, lex::skip_ws(s, e)))
    } else if let Some(e) = lex::number_code(s, j, c8.as_slice()) {
        Some((Mcode::M8, lex::skip_ws(s, e)))
    } else if let Some(e) = lex::number_code(s, j, c9.as_slice()) {
        Some((Mcode::M9, lex::skip_ws(s, e)))
    } else {
        None
    }
}

/// Parse the O-word tail at `j` (after the letter).
fn parse_ocode(s: &[u8], j: usize) -> (r: Option<(Ocode, usize)>)
    requires
        j <= s@.len(),
    ensures
        match r {
            Some((o, e)) => sp_ocode(s@, j as int) == Some((o@, e as int)) && j < e
                <= s@.len(),
            None => sp_ocode(s@, j as int) is None,
        },
{
    let n = s.len();
    let sub_b: Vec<u8> = vec![115u8, 117, 98];
    let endsub_b: Vec<u8> = vec![101u8, 110, 100, 115, 117, 98];
    let if_b: Vec<u8> = vec![105u8, 102];
    let endif_b: Vec<u8> = vec![101u8, 110, 100, 105, 102];
    proof {
        assert(sub_b@ == seq![115u8, 117u8, 98u8]);
        assert(endsub_b@ == seq![101u8, 110u8, 100u8, 115u8, 117u8, 98u8]);
        assert(if_b@ == seq![105u8, 102u8]);
        assert(endif_b@ == seq![101u8, 110u8, 100u8, 105u8, 102u8]);
    }
    match lex::lex_uint(s, j) {
        Some((id, e1)) => {
            let w = lex::skip_ws(s, e1);
            if lex::match_ci(s, w, sub_b.as_slice()) {
                Some((Ocode::new(id, OcodeStatement::Sub), w + 3))
            } else if lex::match_ci(s, w, endsub_b.as_slice()) {
                Some((Ocode::new(id, OcodeStatement::EndSub), w + 6))
            } else if lex::match_ci(s, w, if_b.as_slice()) && {
                proof {
                    assert(w + 2 <= n);
                }
                parse_expression(s, w + 2).is_some()
            } {
                proof {
                    assert(w + 2 <= n);
                }
                match parse_expression(s, w + 2) {
                    Some((ex, e2)) => Some((Ocode::new(id, OcodeStatement::If(ex)), e2)),
                    None => None,
                }
            } else if lex::match_ci(s, w, endif_b.as_slice()) {
                Some((Ocode::new(id, OcodeStatement::EndIf), w + 5))
            } else {
                None
            }
        },
        None => None,
    }
}

/// Parse a whole command, leaving anything after it unconsumed.  The
/// second clause pins a parsed ASCII comment's text to the bytes between
/// its parentheses.
pub fn parse_command(s: &[u8], pos: usize) -> (r: Option<(Command, usize)>)
    requires
        pos <= s@.len(),
    ensures
        match r {
            Some((c, e)) => sp_command(s@, pos as int) == Some((c@, e as int)) && pos <= e
                <= s@.len(),
            None => sp_command(s@, pos as int) is None,
        },
        match r {
            Some((c, e)) => ({
                let h = ws_at(s@, pos as int);
                (h < s@.len() && s@[h] == 40 && all_ascii(
                    s@.subrange(h + 1, rparen_end(s@, h + 1)),
                )) ==> c@ == SpecCommand::Comment(
                    s@.subrange(h + 1, rparen_end(s@, h + 1)).map_values(|b: u8| b as char),
                )
            }),
            None => true,
        },
{
    let n = s.len();
    let h = lex::skip_ws(s, pos);
    if h == n {
        return None;
    }
    let b = s[h];
    if b == 40 {
        parse_comment(s, h)
    } else if b == 35 {
        match parse_assignment(s, h) {
            Some((c, e)) => Some((c, e)),
            None => None,
        }
    } else {
        let lb = lex::lower_exec(b);
        if lb == 103 {
            match parse_gcode(s, h + 1) {
                Some((g, e)) => Some((Command::G(g), e)),
                None => None,
            }
        } else if lb == 109 {
            match parse_mcode(s, h + 1) {
                Some((m, e)) => Some((Command::M(m), e)),
                None => None,
            }
        } else if lb == 111 {
            match parse_ocode(s, h + 1) {
                Some((o, e)) => Some((Command::O(o), e)),
                None => None,
            }
        } else if lb == 115 {
            match parse_scode(s, pos) {
                Some((sc, e)) => Some((Command::S(sc), e)),
                None => None,
            }
        } else if lb == 116 {
            match parse_tcode(s, pos) {
                Some((t, e)) => Some((Command::T(t), e)),
                None => None,
            }
        } else {
            None
        }
    }
}

/// Why a line failed to parse.
#[derive(Debug, PartialEq, Eq, Structural, Clone, Copy)]
pub enum GcodeParseError {
    /// No production matched the line; carries a byte offset no further
    /// than the line's length.
    Syntax(usize),
    /// A comment's body was not valid UTF-8.
    Utf8Error,
}

/// The command a whole line denotes: a command followed by nothing but
/// whitespace.
pub open spec fn sp_line(s: Seq<u8>) -> Option<SpecCommand> {
    match sp_command(s, 0) {
        Some((c, e)) => {
            if ws_at(s, clamp(e, 0, s.len() as int)) == s.len() {
                Some(c)
            } else {
                None
            }
        },
        None => None,
    }
}

/// Whether the line opens a comment whose body is not UTF-8.
pub open spec fn sp_line_bad_utf8(s: Seq<u8>) -> bool {
    let h = ws_at(s, 0);
    h < s.len() && s[h] == 40 && sp_comment_bad_utf8(s, h)
}

/// Whether the line opens a comment whose body is all ASCII.
pub open spec fn sp_line_ascii_comment(s: Seq<u8>) -> bool {
    let h = ws_at(s, 0);
    h < s.len() && s[h] == 40 && all_ascii(s.subrange(h + 1, rparen_end(s, h + 1)))
}

/// The text of the line's comment, read off the bytes: everything
/// strictly between the `(` and the first `)`, one character per byte.
pub open spec fn sp_line_comment_text(s: Seq<u8>) -> Seq<char> {
    let h = ws_at(s, 0);
    s.subrange(h + 1, rparen_end(s, h + 1)).map_values(|b: u8| b as char)
}

/// Parse one whole line.  `Ok` exactly when the line holds one command
/// followed only by whitespace; a comment with a non-UTF-8 body is
/// reported as `Utf8Error`, every other failure as `Syntax`.  The second
/// clause pins a parsed ASCII comment's text to the very bytes between
/// its parentheses.
pub fn parse_line(s: &[u8]) -> (r: Result<Command, GcodeParseError>)
    ensures
        match r {
            Ok(c) => sp_line(s@) == Some(c@),
            Err(GcodeParseError::Utf8Error) => sp_line(s@) is None && sp_line_bad_utf8(s@),
            Err(GcodeParseError::Syntax(o)) => sp_line(s@) is None && !sp_line_bad_utf8(s@) && o
                <= s@.len(),
        },
        match r {
            Ok(c) => sp_line_ascii_comment(s@) ==> c@ == SpecCommand::Comment(
                sp_line_comment_text(s@),
            ),
            Err(_) => true,
        },
{
    let n = s.len();
    match parse_command(s, 0) {
        Some((c, e)) => {
            proof {
                assert(clamp(e as int, 0, s@.len() as int) == e as int);
            }
            let w = lex::skip_ws(s, e);
            if w == n {
                Ok(c)
            } else {
                proof {
                    lemma_line_not_utf8_when_parsed(s@);
                }
                Err(GcodeParseError::Syntax(w))
            }
        },
        None => {
            let h = lex::skip_ws(s, 0);
            if h < n && s[h] == 40 {
                let c = lex::scan_rparen(s, h + 1);
                if c < n && c > h + 1 {
                    // the shape is a comment, so only the decode failed
                    return Err(GcodeParseError::Utf8Error);
                }
            }
            Err(GcodeParseError::Syntax(h))
        },
    }
}

/// A line whose command parses is never a badly-encoded comment.
proof fn lemma_line_not_utf8_when_parsed(s: Seq<u8>)
    requires
        sp_command(s, 0) is Some,
    ensures
        !sp_line_bad_utf8(s),
{
    let h = ws_at(s, 0);
    if h < s.len() && s[h] == 40 {
        assert(sp_command(s, 0) == sp_comment(s, h));
    }
}

} // verus!

