//! The persisted record of a match and the formatting it needs: decimal
//! digits, thousands separators, elapsed time and throughput.
use vstd::prelude::*;
use vstd::slice::slice_index_get;
use vstd::utf8::{is_ascii_chars, is_ascii_chars_encode_utf8};
use vstd::string::StringSliceAdditionalSpecFns;
use crate::hexcode::is_hex_digit;

verus! {

/// ASCII newline, the record's line terminator and separator.
pub const NL: u8 = 10;

/// Is `b` the ASCII code of a decimal digit?
pub open spec fn is_dec_digit(b: u8) -> bool {
    ('0' as u8) <= b && b <= ('9' as u8)
}

/// Decimal digits of `n`, most significant first, no leading zeros.
pub open spec fn dec_digits(n: nat) -> Seq<u8>
    decreases n,
{
    if n < 10 {
        seq![(('0' as u8) + n) as u8]
    } else {
        dec_digits(n / 10) + seq![(('0' as u8) + n % 10) as u8]
    }
}

pub proof fn lemma_dec_digits_chars(n: nat)
    ensures
        dec_digits(n).len() >= 1,
        forall|i: int| 0 <= i < dec_digits(n).len() ==> is_dec_digit(#[trigger] dec_digits(n)[i]),
    decreases n,
{
    if n >= 10 {
        lemma_dec_digits_chars(n / 10);
    }
}

/// Decimal digits of `n`.
pub fn format_digits(n: u64) -> (r: Vec<u8>)
    ensures
        r@ == dec_digits(n as nat),
    decreases n,
{
    if n < 10 {
        let mut v: Vec<u8> = Vec::new();
        v.push(('0' as u8) + (n as u8));
        proof {
            assert(v@ =~= dec_digits(n as nat));
        }
        v
    } else {
        let mut v = format_digits(n / 10);
        v.push(('0' as u8) + ((n % 10) as u8));
        proof {
            assert(v@ =~= dec_digits(n as nat));
        }
        v
    }
}

/// The same digit string with a comma before every group of three digits,
/// counted from the right.
pub open spec fn grouped(s: Seq<u8>) -> Seq<u8>
    decreases s.len(),
{
    if s.len() <= 3 {
        s
    } else {
        grouped(s.take(s.len() - 3)) + seq![(',' as u8)] + s.skip(s.len() - 3)
    }
}

pub proof fn lemma_grouped_chars(s: Seq<u8>)
    requires
        forall|i: int| 0 <= i < s.len() ==> is_dec_digit(#[trigger] s[i]),
    ensures
        forall|i: int|
            0 <= i < grouped(s).len() ==> (is_dec_digit(#[trigger] grouped(s)[i]) || grouped(s)[i]
                == (',' as u8)),
    decreases s.len(),
{
    if s.len() > 3 {
        lemma_grouped_chars(s.take(s.len() - 3));
        let g = grouped(s);
        let gt = grouped(s.take(s.len() - 3));
        assert forall|i: int| 0 <= i < g.len() implies (is_dec_digit(#[trigger] g[i]) || g[i] == (
        ',' as u8)) by {
            if i < gt.len() {
                assert(g[i] == gt[i]);
            } else if i > gt.len() {
                assert(g[i] == s[s.len() - 3 + (i - gt.len() - 1)]);
            }
        }
    }
}

/// Group the first `m` digits of `d` in threes from the right.
fn group_prefix(d: &Vec<u8>, m: usize) -> (r: Vec<u8>)
    requires
        m <= d@.len(),
    ensures
        r@ == grouped(d@.take(m as int)),
    decreases m,
{
    if m <= 3 {
        let mut v: Vec<u8> = Vec::new();
        let mut i: usize = 0;
        while i < m
            invariant
                i <= m <= d@.len(),
                v@ == d@.take(m as int).take(i as int),
            decreases m - i,
        {
            v.push(d[i]);
            proof {
                assert(v@ =~= d@.take(m as int).take(i + 1));
            }
            i = i + 1;
        }
        proof {
            assert(d@.take(m as int).take(m as int) =~= d@.take(m as int));
        }
        v
    } else {
        let mut v = group_prefix(d, m - 3);
        v.push(',' as u8);
        v.push(d[m - 3]);
        v.push(d[m - 2]);
        v.push(d[m - 1]);
        proof {
            let t = d@.take(m as int);
            assert(t.take(t.len() - 3) =~= d@.take(m - 3));
            assert(v@ =~= grouped(t));
        }
        v
    }
}

/// Decimal rendering of `n` with thousands separators.
pub fn format_number(n: u64) -> (r: Vec<u8>)
    ensures
        r@ == grouped(dec_digits(n as nat)),
{
    let digits = format_digits(n);
    let len = digits.len();
    let r = group_prefix(&digits, len);
    proof {
        assert(digits@.take(digits@.len() as int) =~= digits@);
    }
    r
}

/// Attempts per second, rounded to the nearest integer and saturated at the
/// largest representable count.
pub open spec fn spec_rate(attempts: nat, ms: nat) -> nat
    recommends
        ms >= 1,
{
    let v = (attempts * 1000 + ms / 2) / ms;
    if v > u64::MAX as nat {
        u64::MAX as nat
    } else {
        v
    }
}

/// Attempts per second over an elapsed span in milliseconds.
pub fn attempts_per_second(attempts: u64, elapsed_ms: u64) -> (r: u64)
    requires
        elapsed_ms >= 1,
    ensures
        r as nat == spec_rate(attempts as nat, elapsed_ms as nat),
{
    let num: u128 = (attempts as u128) * 1000 + (elapsed_ms as u128) / 2;
    let v: u128 = num / (elapsed_ms as u128);
    if v > (u64::MAX as u128) {
        u64::MAX
    } else {
        v as u64
    }
}

/// Exactly two decimal digits for `c < 100`, high digit first.
pub open spec fn two_digits(c: nat) -> Seq<u8>
    recommends
        c < 100,
{
    seq![(('0' as u8) + c / 10) as u8, (('0' as u8) + c % 10) as u8]
}

/// Elapsed time as whole seconds, a dot, and centiseconds (truncated).
pub open spec fn spec_elapsed(ms: nat) -> Seq<u8> {
    dec_digits(ms / 1000) + seq![('.' as u8)] + two_digits((ms % 1000) / 10)
}

/// Render an elapsed span in milliseconds as seconds with two decimals.
pub fn format_elapsed(elapsed_ms: u64) -> (r: Vec<u8>)
    ensures
        r@ == spec_elapsed(elapsed_ms as nat),
{
    let mut v = format_digits(elapsed_ms / 1000);
    v.push('.' as u8);
    let c = (elapsed_ms % 1000) / 10;
    v.push(('0' as u8) + ((c / 10) as u8));
    v.push(('0' as u8) + ((c % 10) as u8));
    proof {
        assert(v@ =~= spec_elapsed(elapsed_ms as nat));
    }
    v
}

/// The byte string an ASCII character sequence stands for, one byte per
/// character.
pub open spec fn ascii_seq(s: Seq<char>) -> Seq<u8> {
    Seq::new(s.len(), |i: int| s[i] as u8)
}

/// An ASCII label that fits on one line.
pub open spec fn label_ok(s: Seq<char>) -> bool {
    is_ascii_chars(s) && forall|i: int| 0 <= i < s.len() ==> #[trigger] s[i] != '\n'
}

pub proof fn lemma_ascii_seq_no_nl(s: Seq<char>)
    requires
        label_ok(s),
    ensures
        ascii_seq(s).len() == s.len(),
        forall|i: int| 0 <= i < ascii_seq(s).len() ==> #[trigger] ascii_seq(s)[i] != NL,
{
    assert forall|i: int| 0 <= i < ascii_seq(s).len() implies #[trigger] ascii_seq(s)[i] != NL by {
        assert(s[i] != '\n');
        assert('\0' <= s[i] <= '\u{7f}');
    }
}

/// Append the bytes of a one-line ASCII label.
fn push_label(out: &mut Vec<u8>, s: &str)
    requires
        is_ascii_chars(s@),
    ensures
        final(out)@ == old(out)@ + ascii_seq(s@),
{
    let bs = s.as_bytes();
    proof {
        is_ascii_chars_encode_utf8(s@);
    }
    let n = bs.len();
    let mut i: usize = 0;
    while i < n
        invariant
            i <= n,
            n == s@.len(),
            bs@ == s.spec_bytes(),
            bs@.len() == s@.len(),
            forall|j: int| 0 <= j < s@.len() ==> #[trigger] bs@[j] == (s@[j] as u8),
            out@ == old(out)@ + ascii_seq(s@).take(i as int),
        decreases n - i,
    {
        out.push(*slice_index_get(bs, i));
        proof {
            assert(out@ =~= old(out)@ + ascii_seq(s@).take(i + 1));
        }
        i = i + 1;
    }
    proof {
        assert(ascii_seq(s@).take(s@.len() as int) =~= ascii_seq(s@));
    }
}

/// Append a computed piece of the record.
fn push_bytes(out: &mut Vec<u8>, piece: &Vec<u8>)
    ensures
        final(out)@ == old(out)@ + piece@,
{
    let mut i: usize = 0;
    while i < piece.len()
        invariant
            i <= piece@.len(),
            out@ == old(out)@ + piece@.take(i as int),
        decreases piece@.len() - i,
    {
        out.push(piece[i]);
        proof {
            assert(out@ =~= old(out)@ + piece@.take(i + 1));
        }
        i = i + 1;
    }
    proof {
        assert(piece@.take(piece@.len() as int) =~= piece@);
    }
}

/// The full text appended to the result file for one match: a header line,
/// the timestamp, the prefixed address, the private key, the matched digit
/// and run length, the thousands-separated attempt count, the elapsed
/// seconds, the attempts-per-second rate, then one blank line.
pub open spec fn spec_record(
    ts: Seq<u8>,
    addr: Seq<u8>,
    key: Seq<u8>,
    digit: u8,
    run: nat,
    attempts: nat,
    ms: nat,
) -> Seq<u8> {
    ascii_seq("=== Ethereum vanity address ==="@) + seq![NL] + ascii_seq("Time: "@) + ts
        + seq![NL] + ascii_seq("Address: 0x"@) + addr + seq![NL] + ascii_seq("Private key: "@)
        + key + seq![NL] + ascii_seq("Repeated digit: '"@) + seq![digit] + ascii_seq("' x "@)
        + dec_digits(run) + seq![NL] + ascii_seq("Attempts: "@) + grouped(dec_digits(attempts))
        + seq![NL] + ascii_seq("Elapsed: "@) + spec_elapsed(ms) + ascii_seq(" s"@) + seq![NL]
        + ascii_seq("Rate: "@) + dec_digits(spec_rate(attempts, ms)) + ascii_seq(" attempts/s"@)
        + seq![NL] + seq![NL]
}

/// Free of newline bytes.
pub open spec fn no_nl(s: Seq<u8>) -> bool {
    forall|i: int| 0 <= i < s.len() ==> #[trigger] s[i] != NL
}

/// One line's content: nonempty and on one line.
pub open spec fn line_ok(c: Seq<u8>) -> bool {
    c.len() > 0 && no_nl(c)
}

/// No two consecutive newline bytes, that is, no empty line.
pub open spec fn no_blank_line(s: Seq<u8>) -> bool {
    forall|i: int| 0 <= i < s.len() - 1 ==> (#[trigger] s[i] != NL || s[i + 1] != NL)
}

/// A record body under construction: every line so far is terminated and no
/// blank line has appeared.
pub open spec fn body_ok(s: Seq<u8>) -> bool {
    no_blank_line(s) && (s.len() > 0 ==> s[s.len() - 1] == NL)
}

/// A complete well-formed record: nonempty lines, closed by exactly one blank
/// line at the very end.
pub open spec fn wf_record(r: Seq<u8>) -> bool {
    &&& r.len() >= 2
    &&& r[r.len() - 1] == NL
    &&& r[r.len() - 2] == NL
    &&& no_blank_line(r.take(r.len() - 1))
}

pub proof fn lemma_no_nl_concat(a: Seq<u8>, b: Seq<u8>)
    requires
        no_nl(a),
        no_nl(b),
    ensures
        no_nl(a + b),
{
    assert forall|i: int| 0 <= i < (a + b).len() implies #[trigger] (a + b)[i] != NL by {
        if i < a.len() {
            assert((a + b)[i] == a[i]);
        } else {
            assert((a + b)[i] == b[i - a.len()]);
        }
    }
}

/// Appending one terminated, nonempty, newline-free line keeps a record body
/// well formed.
pub proof fn lemma_append_line(s: Seq<u8>, c: Seq<u8>)
    requires
        body_ok(s),
        line_ok(c),
    ensures
        body_ok(s + c + seq![NL]),
        (s + c + seq![NL]).len() > 0,
{
    let t = s + c + seq![NL];
    assert forall|i: int| 0 <= i < t.len() - 1 implies (#[trigger] t[i] != NL || t[i + 1] != NL) by {
        if i + 1 < s.len() {
            assert(t[i] == s[i] && t[i + 1] == s[i + 1]);
        } else if i + 1 < s.len() + c.len() {
            assert(t[i + 1] == c[i + 1 - s.len()]);
        } else {
            assert(i + 1 == s.len() + c.len());
            assert(t[i] == c[c.len() - 1]);
        }
    }
    assert(t[t.len() - 1] == NL);
}

/// A finished body closed by one more newline is a well-formed record.
pub proof fn lemma_body_closes(s: Seq<u8>)
    requires
        body_ok(s),
        s.len() > 0,
    ensures
        wf_record(s + seq![NL]),
{
    let r = s + seq![NL];
    assert(r[r.len() - 1] == NL);
    assert(r[r.len() - 2] == s[s.len() - 1]);
    assert(r.take(r.len() - 1) =~= s);
}

/// A rendered record is well formed whenever the timestamp stays on one line
/// and the address, key and matched digit are hexadecimal text.
#[verifier::rlimit(100)]
#[verifier::spinoff_prover]
pub proof fn lemma_record_wf(
    ts: Seq<u8>,
    addr: Seq<u8>,
    key: Seq<u8>,
    digit: u8,
    run: nat,
    attempts: nat,
    ms: nat,
)
    requires
        no_nl(ts),
        forall|i: int| 0 <= i < addr.len() ==> is_hex_digit(#[trigger] addr[i]),
        forall|i: int| 0 <= i < key.len() ==> is_hex_digit(#[trigger] key[i]),
        is_hex_digit(digit),
    ensures
        wf_record(spec_record(ts, addr, key, digit, run, attempts, ms)),
{
    reveal_strlit("=== Ethereum vanity address ===");
    reveal_strlit("Time: ");
    reveal_strlit("Address: 0x");
    reveal_strlit("Private key: ");
    reveal_strlit("Repeated digit: '");
    reveal_strlit("' x ");
    reveal_strlit("Attempts: ");
    reveal_strlit("Elapsed: ");
    reveal_strlit(" s");
    reveal_strlit("Rate: ");
    reveal_strlit(" attempts/s");
    lemma_ascii_seq_no_nl("=== Ethereum vanity address ==="@);
    lemma_ascii_seq_no_nl("Time: "@);
    lemma_ascii_seq_no_nl("Address: 0x"@);
    lemma_ascii_seq_no_nl("Private key: "@);
    lemma_ascii_seq_no_nl("Repeated digit: '"@);
    lemma_ascii_seq_no_nl("' x "@);
    lemma_ascii_seq_no_nl("Attempts: "@);
    lemma_ascii_seq_no_nl("Elapsed: "@);
    lemma_ascii_seq_no_nl(" s"@);
    lemma_ascii_seq_no_nl("Rate: "@);
    lemma_ascii_seq_no_nl(" attempts/s"@);
    lemma_dec_digits_chars(run);
    lemma_dec_digits_chars(attempts);
    lemma_grouped_chars(dec_digits(attempts));
    lemma_dec_digits_chars(spec_rate(attempts, ms));
    lemma_dec_digits_chars(ms / 1000);
    let c1 = ascii_seq("=== Ethereum vanity address ==="@);
    let c2 = ascii_seq("Time: "@) + ts;
    let c3 = ascii_seq("Address: 0x"@) + addr;
    let c4 = ascii_seq("Private key: "@) + key;
    let c5 = ascii_seq("Repeated digit: '"@) + seq![digit] + ascii_seq("' x "@) + dec_digits(run);
    let c6 = ascii_seq("Attempts: "@) + grouped(dec_digits(attempts));
    let c7 = ascii_seq("Elapsed: "@) + spec_elapsed(ms) + ascii_seq(" s"@);
    let c8 = ascii_seq("Rate: "@) + dec_digits(spec_rate(attempts, ms)) + ascii_seq(
        " attempts/s"@,
    );
    assert(no_nl(seq![digit]));
    assert(no_nl(dec_digits(run)));
    assert(no_nl(grouped(dec_digits(attempts))));
    assert(no_nl(dec_digits(spec_rate(attempts, ms))));
    assert(no_nl(spec_elapsed(ms))) by {
        assert(no_nl(dec_digits(ms / 1000)));
        lemma_no_nl_concat(dec_digits(ms / 1000), seq![('.' as u8)]);
        lemma_no_nl_concat(
            dec_digits(ms / 1000) + seq![('.' as u8)],
            two_digits((ms % 1000) / 10),
        );
    }
    lemma_no_nl_concat(ascii_seq("Time: "@), ts);
    lemma_no_nl_concat(ascii_seq("Address: 0x"@), addr);
    lemma_no_nl_concat(ascii_seq("Private key: "@), key);
    lemma_no_nl_concat(ascii_seq("Repeated digit: '"@), seq![digit]);
    lemma_no_nl_concat(ascii_seq("Repeated digit: '"@) + seq![digit], ascii_seq("' x "@));
    lemma_no_nl_concat(
        ascii_seq("Repeated digit: '"@) + seq![digit] + ascii_seq("' x "@),
        dec_digits(run),
    );
    lemma_no_nl_concat(ascii_seq("Attempts: "@), grouped(dec_digits(attempts)));
    lemma_no_nl_concat(ascii_seq("Elapsed: "@), spec_elapsed(ms));
    lemma_no_nl_concat(ascii_seq("Elapsed: "@) + spec_elapsed(ms), ascii_seq(" s"@));
    lemma_no_nl_concat(ascii_seq("Rate: "@), dec_digits(spec_rate(attempts, ms)));
    lemma_no_nl_concat(
        ascii_seq("Rate: "@) + dec_digits(spec_rate(attempts, ms)),
        ascii_seq(" attempts/s"@),
    );
    let b0 = Seq::<u8>::empty();
    lemma_append_line(b0, c1);
    let b1 = b0 + c1 + seq![NL];
    lemma_append_line(b1, c2);
    let b2 = b1 + c2 + seq![NL];
    lemma_append_line(b2, c3);
    let b3 = b2 + c3 + seq![NL];
    lemma_append_line(b3, c4);
    let b4 = b3 + c4 + seq![NL];
    lemma_append_line(b4, c5);
    let b5 = b4 + c5 + seq![NL];
    lemma_append_line(b5, c6);
    let b6 = b5 + c6 + seq![NL];
    lemma_append_line(b6, c7);
    let b7 = b6 + c7 + seq![NL];
    lemma_append_line(b7, c8);
    let b8 = b7 + c8 + seq![NL];
    lemma_body_closes(b8);
    assert(spec_record(ts, addr, key, digit, run, attempts, ms) =~= b8 + seq![NL]);
}

/// Two well-formed records, appended in order, decompose into well-formed
/// records only at their true boundary: each remains independently
/// recoverable and neither absorbs part of the other.
pub proof fn lemma_records_parse_uniquely(r1: Seq<u8>, r2: Seq<u8>, a: Seq<u8>, b: Seq<u8>)
    requires
        wf_record(r1),
        wf_record(r2),
        wf_record(a),
        wf_record(b),
        r1 + r2 == a + b,
    ensures
        a == r1,
        b == r2,
{
    let s = r1 + r2;
    if a.len() < r1.len() {
        let i = a.len() - 2;
        assert(s[i] == a[a.len() - 2]);
        assert(s[i + 1] == a[a.len() - 1]);
        let t = r1.take(r1.len() - 1);
        assert(t[i] == r1[i] && r1[i] == s[i]);
        assert(t[i + 1] == r1[i + 1] && r1[i + 1] == s[i + 1]);
        assert(t[i] != NL || t[i + 1] != NL);
        assert(false);
    } else if a.len() > r1.len() {
        let i = r1.len() - 2;
        assert(s[i] == r1[r1.len() - 2]);
        assert(s[i + 1] == r1[r1.len() - 1]);
        let t = a.take(a.len() - 1);
        assert(t[i] == a[i] && a[i] == s[i]);
        assert(t[i + 1] == a[i + 1] && a[i + 1] == s[i + 1]);
        assert(t[i] != NL || t[i + 1] != NL);
        assert(false);
    } else {
        assert forall|i: int| 0 <= i < a.len() implies #[trigger] a[i] == r1[i] by {
            assert(a[i] == s[i] && r1[i] == s[i]);
        }
        assert(a =~= r1);
        assert(a.len() + b.len() == (a + b).len());
        assert(r1.len() + r2.len() == (r1 + r2).len());
        assert(b.len() == r2.len());
        assert forall|i: int| 0 <= i < b.len() implies #[trigger] b[i] == r2[i] by {
            assert((a + b)[a.len() + i] == b[i]);
            assert((r1 + r2)[r1.len() + i] == r2[i]);
        }
        assert(b =~= r2);
    }
}

/// Render the record for one match. The timestamp is whatever clock text the
/// caller provides; when it stays on one line and the address, key and digit
/// are hexadecimal text, the record is well-formed in the sense of
/// `wf_record`.
pub fn render_record(
    timestamp: &Vec<u8>,
    address: &Vec<u8>,
    key_hex: &Vec<u8>,
    digit: u8,
    run_len: u64,
    attempts: u64,
    elapsed_ms: u64,
) -> (r: Vec<u8>)
    requires
        elapsed_ms >= 1,
    ensures
        r@ == spec_record(
            timestamp@,
            address@,
            key_hex@,
            digit,
            run_len as nat,
            attempts as nat,
            elapsed_ms as nat,
        ),
        (no_nl(timestamp@) && (forall|i: int|
            0 <= i < address@.len() ==> is_hex_digit(#[trigger] address@[i])) && (forall|i: int|
            0 <= i < key_hex@.len() ==> is_hex_digit(#[trigger] key_hex@[i])) && is_hex_digit(
            digit,
        )) ==> wf_record(r@),
{
    proof {
        if no_nl(timestamp@) && (forall|i: int|
            0 <= i < address@.len() ==> is_hex_digit(#[trigger] address@[i])) && (forall|i: int|
            0 <= i < key_hex@.len() ==> is_hex_digit(#[trigger] key_hex@[i])) && is_hex_digit(
            digit,
        ) {
            lemma_record_wf(
                timestamp@,
                address@,
                key_hex@,
                digit,
                run_len as nat,
                attempts as nat,
                elapsed_ms as nat,
            );
        }
    }
    proof {
        reveal_strlit("=== Ethereum vanity address ===");
        reveal_strlit("Time: ");
        reveal_strlit("Address: 0x");
        reveal_strlit("Private key: ");
        reveal_strlit("Repeated digit: '");
        reveal_strlit("' x ");
        reveal_strlit("Attempts: ");
        reveal_strlit("Elapsed: ");
        reveal_strlit(" s");
        reveal_strlit("Rate: ");
        reveal_strlit(" attempts/s");
    }
    let mut out: Vec<u8> = Vec::new();
    push_label(&mut out, "=== Ethereum vanity address ===");
    out.push(NL);
    push_label(&mut out, "Time: ");
    push_bytes(&mut out, timestamp);
    out.push(NL);
    push_label(&mut out, "Address: 0x");
    push_bytes(&mut out, address);
    out.push(NL);
    push_label(&mut out, "Private key: ");
    push_bytes(&mut out, key_hex);
    out.push(NL);
    push_label(&mut out, "Repeated digit: '");
    out.push(digit);
    push_label(&mut out, "' x ");
    let run_digits = format_digits(run_len);
    push_bytes(&mut out, &run_digits);
    out.push(NL);
    push_label(&mut out, "Attempts: ");
    let att = format_number(attempts);
    push_bytes(&mut out, &att);
    out.push(NL);
    push_label(&mut out, "Elapsed: ");
    let el = format_elapsed(elapsed_ms);
    push_bytes(&mut out, &el);
    push_label(&mut out, " s");
    out.push(NL);
    push_label(&mut out, "Rate: ");
    let rate = attempts_per_second(attempts, elapsed_ms);
    let rate_digits = format_digits(rate);
    push_bytes(&mut out, &rate_digits);
    push_label(&mut out, " attempts/s");
    out.push(NL);
    out.push(NL);
    proof {
        assert(out@ =~= spec_record(
            timestamp@,
            address@,
            key_hex@,
            digit,
            run_len as nat,
            attempts as nat,
            elapsed_ms as nat,
        ));
    }
    out
}

} // verus!
