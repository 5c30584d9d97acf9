//! Load-limit grouping of client hosts: a hostname is reduced to its scheme —
//! its longest leading run of ASCII letters — so per-host-class limits can be
//! looked up by scheme.

use vstd::prelude::*;

verus! {

/// An ASCII letter.
pub open spec fn is_ascii_alpha(b: u8) -> bool {
    (65 <= b <= 90) || (97 <= b <= 122)
}

/// The length of the longest leading run of ASCII letters.
pub open spec fn alpha_prefix_len(s: Seq<u8>) -> nat
    decreases s.len(),
{
    if s.len() == 0 || !is_ascii_alpha(s.first()) {
        0
    } else {
        1 + alpha_prefix_len(s.drop_first())
    }
}

/// The prefix is never longer than the input, letters throughout, and ends
/// only at the end of the input or at the first non-letter.
pub proof fn lemma_alpha_prefix(s: Seq<u8>)
    ensures
        alpha_prefix_len(s) <= s.len(),
        forall|j: int| 0 <= j < alpha_prefix_len(s) ==> is_ascii_alpha(#[trigger] s[j]),
        alpha_prefix_len(s) < s.len() ==> !is_ascii_alpha(s[alpha_prefix_len(s) as int]),
    decreases s.len(),
{
    if s.len() > 0 && is_ascii_alpha(s.first()) {
        lemma_alpha_prefix(s.drop_first());
        assert(forall|j: int| 1 <= j < alpha_prefix_len(s) ==> s[j] == s.drop_first()[j - 1]);
        if alpha_prefix_len(s) < s.len() {
            assert(s[alpha_prefix_len(s) as int] == s.drop_first()[alpha_prefix_len(
                s.drop_first(),
            ) as int]);
        }
    }
}

/// Translate a hostname into its host scheme: the longest leading run of
/// ASCII letters ("devvm001.lla1..." gives "devvm", "hg001..." gives "hg").
pub fn hostname_scheme(hostname: &[u8]) -> (r: Vec<u8>)
    ensures
        r@ == hostname@.take(alpha_prefix_len(hostname@) as int),
{
    proof {
        lemma_alpha_prefix(hostname@);
    }
    let mut i: usize = 0;
    let mut r: Vec<u8> = Vec::new();
    while i < hostname.len()
        invariant
            i <= hostname@.len(),
            r@ == hostname@.take(i as int),
            i <= alpha_prefix_len(hostname@),
            forall|j: int| 0 <= j < alpha_prefix_len(hostname@) ==> is_ascii_alpha(
                #[trigger] hostname@[j],
            ),
            alpha_prefix_len(hostname@) < hostname@.len() ==> !is_ascii_alpha(
                hostname@[alpha_prefix_len(hostname@) as int],
            ),
            alpha_prefix_len(hostname@) <= hostname@.len(),
        decreases hostname@.len() - i,
    {
        let b = hostname[i];
        let alpha = (b >= 65 && b <= 90) || (b >= 97 && b <= 122);
        if !alpha {
            proof {
                assert(i == alpha_prefix_len(hostname@)) by {
                    if i < alpha_prefix_len(hostname@) {
                        assert(is_ascii_alpha(hostname@[i as int]));
                    }
                }
            }
            return r;
        }
        r.push(b);
        i += 1;
        proof {
            assert(r@ =~= hostname@.take(i as int));
            assert(i <= alpha_prefix_len(hostname@)) by {
                if i > alpha_prefix_len(hostname@) {
                    assert(!is_ascii_alpha(hostname@[alpha_prefix_len(hostname@) as int]));
                    assert(is_ascii_alpha(hostname@[i - 1]));
                }
            }
        }
    }
    proof {
        assert(i == alpha_prefix_len(hostname@));
    }
    r
}

} // verus!
