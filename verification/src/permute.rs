//! Whitespace permutation: every way of writing a token list with one
//! optional space in each of the gaps around and between the tokens.
//! Tests use this to check that parsing ignores horizontal whitespace.

use vstd::prelude::*;

use vstd::arithmetic::power2::pow2;

use crate::text::append_str;

verus! {

/// The string for one choice of gaps: bit `0` of `mask` decides a space
/// before the first token, bit `k` a space after token `k`, the last bit a
/// trailing space.
pub open spec fn sp_ws_variant(tokens: Seq<Seq<char>>, mask: nat) -> Seq<char>
    decreases tokens.len(),
{
    if tokens.len() == 0 {
        if mask % 2 == 1 {
            seq![' ']
        } else {
            Seq::empty()
        }
    } else {
        (if mask % 2 == 1 {
            seq![' ']
        } else {
            Seq::empty()
        }) + tokens[0] + sp_ws_variant(tokens.drop_first(), mask / 2)
    }
}

/// The token views of a token list.
pub open spec fn sp_token_views(tokens: Seq<&str>) -> Seq<Seq<char>> {
    tokens.map_values(|t: &str| t@)
}

/// Every whitespace variant of the token list: one entry for each of the
/// `2^(n + 1)` gap choices, the variant for mask `m` at index `m`.
pub fn permute_whitespace(tokens: &[&str]) -> (r: Vec<String>)
    requires
        tokens@.len() < 16,
    ensures
        r@.len() == pow2((tokens@.len() + 1) as nat),
        forall|m: int|
            0 <= m < r@.len() ==> (#[trigger] r@[m])@ == sp_ws_variant(
                sp_token_views(tokens@),
                m as nat,
            ),
{
    proof {
        vstd::arithmetic::power2::lemma2_to64();
    }
    let mut count: usize = 1;
    let mut g: usize = 0;
    while g < tokens.len() + 1
        invariant
            tokens@.len() < 16,
            g <= tokens@.len() + 1,
            count == pow2(g as nat),
            count <= 65536,
        decreases tokens@.len() + 1 - g,
    {
        proof {
            vstd::arithmetic::power2::lemma2_to64();
            vstd::arithmetic::power2::lemma_pow2_strictly_increases(
                (g + 1) as nat,
                18,
            );
            assert(pow2((g + 1) as nat) == 2 * pow2(g as nat)) by {
                vstd::arithmetic::power2::lemma_pow2_unfold((g + 1) as nat);
            }
        }
        count = count * 2;
        g += 1;
    }
    let mut out: Vec<String> = Vec::new();
    let ghost tviews = sp_token_views(tokens@);
    let mut mask: usize = 0;
    while mask < count
        invariant
            out@.len() == mask,
            mask <= count,
            count == pow2((tokens@.len() + 1) as nat),
            tviews == sp_token_views(tokens@),
            forall|q: int|
                0 <= q < mask ==> (#[trigger] out@[q])@ == sp_ws_variant(tviews, q as nat),
        decreases count - mask,
    {
        let mut s = String::new();
        let mut m: usize = mask;
        let mut j: usize = 0;
        proof {
            assert(tviews.skip(0) =~= tviews);
            assert(s@ + sp_ws_variant(tviews, mask as nat) =~= sp_ws_variant(
                tviews,
                mask as nat,
            ));
        }
        while j < tokens.len()
            invariant
                j <= tokens@.len(),
                tviews == sp_token_views(tokens@),
                sp_ws_variant(tviews, mask as nat) == s@ + sp_ws_variant(
                    tviews.skip(j as int),
                    m as nat,
                ),
            decreases tokens@.len() - j,
        {
            proof {
                assert(tviews.skip(j as int).len() == tviews.len() - j);
                assert(tviews.skip(j as int)[0] == tviews[j as int]);
                assert(tviews.skip(j as int).drop_first() =~= tviews.skip(j + 1));
                reveal_strlit(" ");
                assert(" "@ =~= seq![' ']);
            }
            let ghost s_before = s@;
            if m % 2 == 1 {
                s = append_str(s, " ");
            }
            s = append_str(s, tokens[j]);
            proof {
                let gap: Seq<char> = if m % 2 == 1 {
                    seq![' ']
                } else {
                    Seq::empty()
                };
                assert(s@ =~= s_before + gap + tviews[j as int]);
                assert(s_before + (gap + tviews[j as int] + sp_ws_variant(
                    tviews.skip(j + 1),
                    (m / 2) as nat,
                )) =~= (s_before + gap + tviews[j as int]) + sp_ws_variant(
                    tviews.skip(j + 1),
                    (m / 2) as nat,
                ));
            }
            m = m / 2;
            j += 1;
        }
        proof {
            assert(tviews.skip(tokens@.len() as int).len() == 0);
            reveal_strlit(" ");
            assert(" "@ =~= seq![' ']);
        }
        let ghost s_before = s@;
        if m % 2 == 1 {
            s = append_str(s, " ");
            proof {
                assert(s@ =~= s_before + seq![' ']);
            }
        } else {
            proof {
                assert(s_before + Seq::<char>::empty() =~= s_before);
            }
        }
        out.push(s);
        mask += 1;
    }
    out
}

} // verus!
