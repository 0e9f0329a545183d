//! The suffix-run predicate: does an address end in a long enough run of one
//! repeated hexadecimal digit?
use vstd::prelude::*;
use crate::hexcode::is_hex_digit;

verus! {

/// Length of the maximal run of identical bytes ending at the last position.
pub open spec fn trailing_run(s: Seq<u8>) -> int
    decreases s.len(),
{
    if s.len() <= 1 {
        s.len() as int
    } else if s[s.len() - 2] == s[s.len() - 1] {
        1 + trailing_run(s.drop_last())
    } else {
        1
    }
}

/// What the matcher decides: the digit and length of the trailing run, if the
/// last character is a hexadecimal digit and the run meets the threshold.
pub open spec fn spec_suffix_match(s: Seq<u8>, min_run: int) -> Option<(u8, int)> {
    if s.len() > 0 && is_hex_digit(s[s.len() - 1]) && trailing_run(s) >= min_run {
        Some((s[s.len() - 1], trailing_run(s)))
    } else {
        None
    }
}

pub proof fn lemma_trailing_run_bounds(s: Seq<u8>)
    requires
        s.len() > 0,
    ensures
        1 <= trailing_run(s) <= s.len(),
    decreases s.len(),
{
    if s.len() > 1 && s[s.len() - 2] == s[s.len() - 1] {
        lemma_trailing_run_bounds(s.drop_last());
    }
}

/// Every byte of the trailing run equals the last byte, and the byte just
/// before the run (when there is one) differs from it.
pub proof fn lemma_trailing_run_chars(s: Seq<u8>)
    requires
        s.len() > 0,
    ensures
        forall|j: int| s.len() - trailing_run(s) <= j < s.len() ==> #[trigger] s[j] == s[s.len() - 1],
        s.len() - trailing_run(s) - 1 >= 0 ==> s[s.len() - trailing_run(s) - 1] != s[s.len() - 1],
    decreases s.len(),
{
    lemma_trailing_run_bounds(s);
    if s.len() > 1 && s[s.len() - 2] == s[s.len() - 1] {
        lemma_trailing_run_chars(s.drop_last());
        lemma_trailing_run_bounds(s.drop_last());
        let d = s.drop_last();
        assert forall|j: int| s.len() - trailing_run(s) <= j < s.len() implies #[trigger] s[j] == s[s.len()
            - 1] by {
            if j < s.len() - 1 {
                assert(d[j] == d[d.len() - 1]);
            }
        }
    }
}

/// A block of `k` identical bytes ending at the last position, preceded by a
/// differing byte or by nothing, is exactly the trailing run.
pub proof fn lemma_trailing_run_determined(s: Seq<u8>, k: int)
    requires
        1 <= k <= s.len(),
        forall|j: int| s.len() - k <= j < s.len() ==> #[trigger] s[j] == s[s.len() - 1],
        s.len() - k - 1 >= 0 ==> s[s.len() - k - 1] != s[s.len() - 1],
    ensures
        trailing_run(s) == k,
    decreases s.len(),
{
    if k >= 2 {
        let d = s.drop_last();
        assert(s[s.len() - 2] == s[s.len() - 1]);
        assert forall|j: int| d.len() - (k - 1) <= j < d.len() implies #[trigger] d[j] == d[d.len() - 1] by {
            assert(s[j] == s[s.len() - 1]);
        }
        lemma_trailing_run_determined(d, k - 1);
    } else {
        if s.len() >= 2 {
            assert(s[s.len() - 2] != s[s.len() - 1]);
        }
    }
}

/// A block of `k` identical bytes ending at the last position forces the
/// trailing run to be at least `k` long.
pub proof fn lemma_trailing_run_at_least(s: Seq<u8>, k: int)
    requires
        1 <= k <= s.len(),
        forall|j: int| s.len() - k <= j < s.len() ==> #[trigger] s[j] == s[s.len() - 1],
    ensures
        trailing_run(s) >= k,
    decreases s.len(),
{
    if k >= 2 {
        let d = s.drop_last();
        assert(s[s.len() - 2] == s[s.len() - 1]);
        assert forall|j: int| d.len() - (k - 1) <= j < d.len() implies #[trigger] d[j] == d[d.len() - 1] by {
            assert(s[j] == s[s.len() - 1]);
        }
        lemma_trailing_run_at_least(d, k - 1);
    } else {
        lemma_trailing_run_bounds(s);
    }
}

/// The matcher's answer, characterized without mention of `trailing_run`:
/// `(d, r)` comes back exactly when the final `r` characters are the
/// hexadecimal digit `d` repeated, `r` meets the threshold, and the character
/// just before those `r` (if any) differs from `d`.
pub proof fn lemma_match_characterization(s: Seq<u8>, m: int, d: u8, r: int)
    ensures
        spec_suffix_match(s, m) == Some((d, r)) <==> (r >= m && 1 <= r <= s.len()
            && is_hex_digit(d) && (forall|j: int| s.len() - r <= j < s.len() ==> #[trigger] s[j] == d) && (
        s.len() - r - 1 >= 0 ==> s[s.len() - r - 1] != d)),
{
    if s.len() > 0 {
        lemma_trailing_run_bounds(s);
        lemma_trailing_run_chars(s);
        if r >= m && 1 <= r <= s.len() && is_hex_digit(d) && (forall|j: int|
            s.len() - r <= j < s.len() ==> #[trigger] s[j] == d) && (s.len() - r - 1 >= 0 ==> s[s.len() - r
            - 1] != d) {
            assert(s[s.len() - 1] == d);
            lemma_trailing_run_determined(s, r);
        }
    }
}

/// A match is reported exactly when the final `m` characters are identical
/// hexadecimal digits (`m` at or above one).
pub proof fn lemma_match_reported(s: Seq<u8>, m: int)
    requires
        m >= 1,
    ensures
        spec_suffix_match(s, m) is Some <==> (m <= s.len() && is_hex_digit(s[s.len() - 1]) && (
        forall|j: int| s.len() - m <= j < s.len() ==> #[trigger] s[j] == s[s.len() - 1])),
{
    if s.len() > 0 {
        lemma_trailing_run_bounds(s);
        lemma_trailing_run_chars(s);
        if m <= s.len() && (forall|j: int| s.len() - m <= j < s.len() ==> #[trigger] s[j] == s[s.len() - 1]) {
            lemma_trailing_run_at_least(s, m);
        }
    }
}

/// The matcher is deterministic: its answer is a function of the address and
/// the threshold alone, so any two results obtained for identical inputs
/// coincide. `suffix_match` ensures its result equals this function's value.
pub proof fn lemma_matcher_deterministic(
    s: Seq<u8>,
    min_run: int,
    r1: Option<(u8, int)>,
    r2: Option<(u8, int)>,
)
    requires
        r1 == spec_suffix_match(s, min_run),
        r2 == spec_suffix_match(s, min_run),
    ensures
        r1 == r2,
{
}

/// Decide whether `address` ends in a run of at least `min_run` identical
/// hexadecimal digits; report the digit and the full run length if so.
///
/// Scans backward from the end and allocates nothing.
pub fn suffix_match(address: &Vec<u8>, min_run: usize) -> (r: Option<(u8, usize)>)
    ensures
        spec_suffix_match(address@, min_run as int) == (match r {
            Some(p) => Some((p.0, p.1 as int)),
            None => None,
        }),
{
    let n = address.len();
    if n == 0 {
        return None;
    }
    let last = address[n - 1];
    if !((('0' as u8) <= last && last <= ('9' as u8)) || (('a' as u8) <= last && last <= (
    'f' as u8))) {
        return None;
    }
    let mut start: usize = n - 1;
    while start > 0 && address[start - 1] == last
        invariant
            start <= n - 1,
            n == address@.len(),
            last == address@[n - 1],
            forall|j: int| start <= j < n ==> #[trigger] address@[j] == last,
        decreases start,
    {
        start = start - 1;
    }
    let run = n - start;
    proof {
        lemma_trailing_run_determined(address@, run as int);
    }
    if run >= min_run {
        Some((last, run))
    } else {
        None
    }
}

} // verus!
