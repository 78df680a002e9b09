//! Lexical primitives, each as a spec-level definition on byte sequences and
//! positions together with an executable scanner proved to match it.
//!
//! Horizontal whitespace (space and tab) may separate tokens anywhere;
//! newlines are framed away by the line reader and never consumed here.

use vstd::prelude::*;

verus! {

/// Horizontal whitespace between tokens: space or tab.
pub open spec fn is_space(b: u8) -> bool {
    b == 32 || b == 9
}

/// Whitespace as stripped inside `#<...>` names: space, tab, carriage
/// return or line feed.
pub open spec fn is_ascii_ws(b: u8) -> bool {
    b == 32 || b == 9 || b == 10 || b == 13
}

/// ASCII decimal digit.
pub open spec fn is_digit(b: u8) -> bool {
    48 <= b <= 57
}

/// ASCII letter.
pub open spec fn is_alpha(b: u8) -> bool {
    (65 <= b <= 90) || (97 <= b <= 122)
}

/// Letter, digit or underscore: what may follow nothing alphabetic, and what
/// a parameter name is made of.
pub open spec fn is_alnum_or_underscore(b: u8) -> bool {
    is_alpha(b) || is_digit(b) || b == 95
}

/// The lower-case form of an ASCII byte.
pub open spec fn lower(b: u8) -> u8 {
    if 65 <= b <= 90 {
        (b + 32) as u8
    } else {
        b
    }
}

/// The lower-case form of an ASCII byte.
pub fn lower_exec(b: u8) -> (r: u8)
    ensures
        r == lower(b),
{
    if 65 <= b && b <= 90 {
        b + 32
    } else {
        b
    }
}

/// First position at or after `i` holding no horizontal whitespace.
pub open spec fn ws_at(s: Seq<u8>, i: int) -> int
    decreases s.len() - i when 0 <= i <= s.len()
{
    if i < s.len() && is_space(s[i]) {
        ws_at(s, i + 1)
    } else {
        i
    }
}

pub broadcast proof fn lemma_ws_at_bounds(s: Seq<u8>, i: int)
    requires
        0 <= i <= s.len(),
    ensures
        i <= #[trigger] ws_at(s, i) <= s.len(),
        forall|k: int| i <= k < ws_at(s, i) ==> is_space(s[k]),
        ws_at(s, i) < s.len() ==> !is_space(s[ws_at(s, i)]),
    decreases s.len() - i,
{
    if i < s.len() && is_space(s[i]) {
        lemma_ws_at_bounds(s, i + 1);
    }
}

/// Skip horizontal whitespace.
pub fn skip_ws(s: &[u8], pos: usize) -> (r: usize)
    requires
        pos <= s@.len(),
    ensures
        r == ws_at(s@, pos as int),
        pos <= r <= s@.len(),
    decreases s@.len() - pos,
{
    proof {
        lemma_ws_at_bounds(s@, pos as int);
    }
    if pos < s.len() && (s[pos] == 32 || s[pos] == 9) {
        skip_ws(s, pos + 1)
    } else {
        pos
    }
}

/// End of the run of decimal digits beginning at `i`.
pub open spec fn digits_end(s: Seq<u8>, i: int) -> int
    decreases s.len() - i when 0 <= i <= s.len()
{
    if i < s.len() && is_digit(s[i]) {
        digits_end(s, i + 1)
    } else {
        i
    }
}

pub broadcast proof fn lemma_digits_end_bounds(s: Seq<u8>, i: int)
    requires
        0 <= i <= s.len(),
    ensures
        i <= #[trigger] digits_end(s, i) <= s.len(),
        forall|k: int| i <= k < digits_end(s, i) ==> is_digit(s[k]),
        digits_end(s, i) < s.len() ==> !is_digit(s[digits_end(s, i)]),
    decreases s.len() - i,
{
    if i < s.len() && is_digit(s[i]) {
        lemma_digits_end_bounds(s, i + 1);
    }
}

/// End of the digit run, executable.
pub fn scan_digits(s: &[u8], pos: usize) -> (r: usize)
    requires
        pos <= s@.len(),
    ensures
        r == digits_end(s@, pos as int),
        pos <= r <= s@.len(),
    decreases s@.len() - pos,
{
    proof {
        lemma_digits_end_bounds(s@, pos as int);
    }
    if pos < s.len() && 48 <= s[pos] && s[pos] <= 57 {
        scan_digits(s, pos + 1)
    } else {
        pos
    }
}

/// End of the run of ASCII letters beginning at `i`.
pub open spec fn alpha_end(s: Seq<u8>, i: int) -> int
    decreases s.len() - i when 0 <= i <= s.len()
{
    if i < s.len() && is_alpha(s[i]) {
        alpha_end(s, i + 1)
    } else {
        i
    }
}

pub broadcast proof fn lemma_alpha_end_bounds(s: Seq<u8>, i: int)
    requires
        0 <= i <= s.len(),
    ensures
        i <= #[trigger] alpha_end(s, i) <= s.len(),
        forall|k: int| i <= k < alpha_end(s, i) ==> is_alpha(s[k]),
        alpha_end(s, i) < s.len() ==> !is_alpha(s[alpha_end(s, i)]),
    decreases s.len() - i,
{
    if i < s.len() && is_alpha(s[i]) {
        lemma_alpha_end_bounds(s, i + 1);
    }
}

/// End of the letter run, executable.
pub fn scan_alpha(s: &[u8], pos: usize) -> (r: usize)
    requires
        pos <= s@.len(),
    ensures
        r == alpha_end(s@, pos as int),
        pos <= r <= s@.len(),
    decreases s@.len() - pos,
{
    proof {
        lemma_alpha_end_bounds(s@, pos as int);
    }
    if pos < s.len() && ((65 <= s[pos] && s[pos] <= 90) || (97 <= s[pos] && s[pos] <= 122)) {
        scan_alpha(s, pos + 1)
    } else {
        pos
    }
}

/// First position at or after `i` holding `>` (or the input's end).
pub open spec fn gt_end(s: Seq<u8>, i: int) -> int
    decreases s.len() - i when 0 <= i <= s.len()
{
    if i < s.len() && s[i] != 62 {
        gt_end(s, i + 1)
    } else {
        i
    }
}

pub broadcast proof fn lemma_gt_end_bounds(s: Seq<u8>, i: int)
    requires
        0 <= i <= s.len(),
    ensures
        i <= #[trigger] gt_end(s, i) <= s.len(),
        forall|k: int| i <= k < gt_end(s, i) ==> s[k] != 62,
        gt_end(s, i) < s.len() ==> s[gt_end(s, i)] == 62,
    decreases s.len() - i,
{
    if i < s.len() && s[i] != 62 {
        lemma_gt_end_bounds(s, i + 1);
    }
}

/// Scan for the closing `>`, executable.
pub fn scan_gt(s: &[u8], pos: usize) -> (r: usize)
    requires
        pos <= s@.len(),
    ensures
        r == gt_end(s@, pos as int),
        pos <= r <= s@.len(),
    decreases s@.len() - pos,
{
    proof {
        lemma_gt_end_bounds(s@, pos as int);
    }
    if pos < s.len() && s[pos] != 62 {
        scan_gt(s, pos + 1)
    } else {
        pos
    }
}

/// First position at or after `i` holding `)` (or the input's end).
pub open spec fn rparen_end(s: Seq<u8>, i: int) -> int
    decreases s.len() - i when 0 <= i <= s.len()
{
    if i < s.len() && s[i] != 41 {
        rparen_end(s, i + 1)
    } else {
        i
    }
}

pub broadcast proof fn lemma_rparen_end_bounds(s: Seq<u8>, i: int)
    requires
        0 <= i <= s.len(),
    ensures
        i <= #[trigger] rparen_end(s, i) <= s.len(),
        forall|k: int| i <= k < rparen_end(s, i) ==> s[k] != 41,
        rparen_end(s, i) < s.len() ==> s[rparen_end(s, i)] == 41,
    decreases s.len() - i,
{
    if i < s.len() && s[i] != 41 {
        lemma_rparen_end_bounds(s, i + 1);
    }
}

/// Scan for the closing `)`, executable.
pub fn scan_rparen(s: &[u8], pos: usize) -> (r: usize)
    requires
        pos <= s@.len(),
    ensures
        r == rparen_end(s@, pos as int),
        pos <= r <= s@.len(),
    decreases s@.len() - pos,
{
    proof {
        lemma_rparen_end_bounds(s@, pos as int);
    }
    if pos < s.len() && s[pos] != 41 {
        scan_rparen(s, pos + 1)
    } else {
        pos
    }
}

/// Value of the decimal digit run `s[i..j)`.
pub open spec fn uint_val(s: Seq<u8>, i: int, j: int) -> nat
    decreases j - i when i <= j
{
    if i < j {
        (uint_val(s, i, j - 1) * 10 + (s[j - 1] - 48)) as nat
    } else {
        0
    }
}

/// A digit run's value only grows as the run is extended.
proof fn lemma_uint_val_mono(s: Seq<u8>, i: int, j: int, e: int)
    requires
        0 <= i <= j <= e <= s.len(),
        forall|k: int| i <= k < e ==> is_digit(#[trigger] s[k]),
    ensures
        uint_val(s, i, j) <= uint_val(s, i, e),
    decreases e - j,
{
    if j < e {
        lemma_uint_val_mono(s, i, j, e - 1);
        assert(is_digit(s[e - 1]));
        assert(uint_val(s, i, e) == (uint_val(s, i, e - 1) * 10 + (s[e - 1] - 48)) as nat);
        assert(uint_val(s, i, e - 1) * 10 >= uint_val(s, i, e - 1)) by (nonlinear_arith);
    }
}

/// An unsigned integer: one or more digits whose value fits in `u32`.
/// `None` when no digit is present or the value overflows.
pub open spec fn sp_lex_uint(s: Seq<u8>, i: int) -> Option<(u32, int)> {
    let e = digits_end(s, i);
    if e == i {
        None
    } else if uint_val(s, i, e) <= u32::MAX {
        Some(((uint_val(s, i, e) as u32), e))
    } else {
        None
    }
}

/// Scan an unsigned decimal integer.
pub fn lex_uint(s: &[u8], pos: usize) -> (r: Option<(u32, usize)>)
    requires
        pos <= s@.len(),
    ensures
        match r {
            Some((v, e)) => {
                &&& sp_lex_uint(s@, pos as int) == Some((v, e as int))
                &&& pos < e <= s@.len()
            },
            None => sp_lex_uint(s@, pos as int) is None,
        },
{
    proof {
        lemma_digits_end_bounds(s@, pos as int);
    }
    let end = scan_digits(s, pos);
    if end == pos {
        return None;
    }
    let mut acc: u32 = 0;
    let mut j: usize = pos;
    while j < end
        invariant
            pos <= j <= end <= s@.len(),
            end == digits_end(s@, pos as int),
            acc == uint_val(s@, pos as int, j as int),
            forall|k: int| pos <= k < end ==> is_digit(s@[k]),
        decreases end - j,
    {
        let d: u32 = (s[j] - 48) as u32;
        if acc > (u32::MAX - d) / 10 {
            // the run's full value can only be larger still
            proof {
                assert(uint_val(s@, pos as int, j + 1) == acc * 10 + d);
                assert(uint_val(s@, pos as int, j + 1) > u32::MAX);
                lemma_uint_val_mono(s@, pos as int, j + 1, end as int);
            }
            return None;
        }
        acc = acc * 10 + d;
        j += 1;
    }
    Some((acc, end))
}

/// Whether the bytes `t` stand at position `i`, compared case-insensitively.
pub open spec fn matches_ci_at(s: Seq<u8>, i: int, t: Seq<u8>) -> bool {
    &&& 0 <= i
    &&& i + t.len() <= s.len()
    &&& forall|k: int| 0 <= k < t.len() ==> lower(s[i + k]) == lower(#[trigger] t[k])
}

/// Case-insensitive match of `t` at `pos`.
pub fn match_ci(s: &[u8], pos: usize, t: &[u8]) -> (r: bool)
    requires
        pos <= s@.len(),
    ensures
        r == matches_ci_at(s@, pos as int, t@),
{
    let n = s.len();
    if n - pos < t.len() {
        return false;
    }
    let mut k: usize = 0;
    while k < t.len()
        invariant
            k <= t@.len(),
            n == s@.len(),
            pos + t@.len() <= n,
            forall|m: int| 0 <= m < k ==> lower(s@[pos + m]) == lower(#[trigger] t@[m]),
        decreases t@.len() - k,
    {
        if lower_exec(s[pos + k]) != lower_exec(t[k]) {
            return false;
        }
        k += 1;
    }
    true
}

/// Whether byte `b` stands at position `i`.
pub open spec fn byte_at(s: Seq<u8>, i: int, b: u8) -> bool {
    0 <= i < s.len() && s[i] == b
}

/// Exact-byte match at `pos`.
pub fn match_byte(s: &[u8], pos: usize, b: u8) -> (r: bool)
    requires
        pos <= s@.len(),
    ensures
        r == byte_at(s@, pos as int, b),
{
    pos < s.len() && s[pos] == b
}

/// The guard behind alphabetic operators and codes: matching stops being
/// valid when the next byte is a letter, digit or underscore.
pub open spec fn alpha_guard_ok(s: Seq<u8>, e: int) -> bool {
    e == s.len() || !is_alnum_or_underscore(s[e])
}

/// Whether the byte at `pos` (if any) is a letter, digit or underscore.
pub fn alnum_or_underscore_at(s: &[u8], pos: usize) -> (r: bool)
    requires
        pos <= s@.len(),
    ensures
        r == !alpha_guard_ok(s@, pos as int),
{
    pos < s.len() && {
        let b = s[pos];
        (65 <= b && b <= 90) || (97 <= b && b <= 122) || (48 <= b && b <= 57) || b == 95
    }
}

/// `number_code`: the exact digit sequence `code` stands at `i` and is not
/// followed by another digit, so `"2"` does not match input starting
/// `"20"`.
pub open spec fn sp_number_code(s: Seq<u8>, i: int, code: Seq<u8>) -> Option<int> {
    if matches_ci_at(s, i, code) && !(i + code.len() < s.len() && is_digit(
        s[i + code.len()],
    )) {
        Some(i + code.len())
    } else {
        None
    }
}

/// Match an exact numeric code not followed by a further digit.
pub fn number_code(s: &[u8], pos: usize, code: &[u8]) -> (r: Option<usize>)
    requires
        pos <= s@.len(),
    ensures
        match r {
            Some(e) => {
                &&& sp_number_code(s@, pos as int, code@) == Some(e as int)
                &&& pos <= e <= s@.len()
            },
            None => sp_number_code(s@, pos as int, code@) is None,
        },
{
    let n = s.len();
    if !match_ci(s, pos, code) {
        return None;
    }
    proof {
        assert(pos + code@.len() <= n);
    }
    let e = pos + code.len();
    if e < s.len() && 48 <= s[e] && s[e] <= 57 {
        return None;
    }
    Some(e)
}

/// Extent of a float literal beginning at `i`: an optional sign, then
/// either digits with an optional fraction (`12`, `12.`, `12.5`) or a
/// fraction alone (`.5`).  Yields `i` when no literal starts here.
pub open spec fn float_end(s: Seq<u8>, i: int) -> int {
    if !(0 <= i <= s.len()) {
        i
    } else {
        let ms = if i < s.len() && (s[i] == 43 || s[i] == 45) {
            i + 1
        } else {
            i
        };
        let de = digits_end(s, ms);
        if de > ms {
            if de < s.len() && s[de] == 46 {
                digits_end(s, de + 1)
            } else {
                de
            }
        } else if ms < s.len() && s[ms] == 46 && digits_end(s, ms + 1) > ms + 1 {
            digits_end(s, ms + 1)
        } else {
            i
        }
    }
}

pub broadcast proof fn lemma_float_end_bounds(s: Seq<u8>, i: int)
    requires
        0 <= i <= s.len(),
    ensures
        i <= #[trigger] float_end(s, i) <= s.len(),
{
    lemma_digits_end_bounds(s, i);
    if i < s.len() {
        lemma_digits_end_bounds(s, i + 1);
        let ms = if s[i] == 43 || s[i] == 45 {
            i + 1
        } else {
            i
        };
        let de = digits_end(s, ms);
        lemma_digits_end_bounds(s, ms);
        if de > ms && de < s.len() && s[de] == 46 {
            lemma_digits_end_bounds(s, de + 1);
        }
        if ms < s.len() {
            lemma_digits_end_bounds(s, ms + 1);
        }
    }
}

/// Scan a float literal's extent.
pub fn scan_float(s: &[u8], pos: usize) -> (r: usize)
    requires
        pos <= s@.len(),
    ensures
        r == float_end(s@, pos as int),
        pos <= r <= s@.len(),
{
    proof {
        lemma_float_end_bounds(s@, pos as int);
    }
    let ms = if pos < s.len() && (s[pos] == 43 || s[pos] == 45) {
        pos + 1
    } else {
        pos
    };
    let de = scan_digits(s, ms);
    if de > ms {
        if de < s.len() && s[de] == 46 {
            scan_digits(s, de + 1)
        } else {
            de
        }
    } else if ms < s.len() && s[ms] == 46 {
        let fe = scan_digits(s, ms + 1);
        if fe > ms + 1 {
            fe
        } else {
            pos
        }
    } else {
        pos
    }
}

} // verus!
