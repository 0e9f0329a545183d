//! Lowercase hexadecimal encoding and decoding of byte strings.
use vstd::prelude::*;

verus! {

/// Is `b` the ASCII code of a lowercase hexadecimal digit?
pub open spec fn is_hex_digit(b: u8) -> bool {
    (('0' as u8) <= b && b <= ('9' as u8)) || (('a' as u8) <= b && b <= ('f' as u8))
}

/// ASCII code of the hexadecimal digit for a nibble `n < 16`.
pub open spec fn hex_digit(n: u8) -> u8
    recommends
        n < 16,
{
    if n < 10 {
        (('0' as u8) + n) as u8
    } else {
        (('a' as u8) + (n - 10)) as u8
    }
}

/// Numeric value of a lowercase hexadecimal digit.
pub open spec fn hex_value(b: u8) -> u8
    recommends
        is_hex_digit(b),
{
    if ('0' as u8) <= b && b <= ('9' as u8) {
        (b - ('0' as u8)) as u8
    } else {
        (b - ('a' as u8) + 10) as u8
    }
}

/// Lowercase hexadecimal rendering of a byte string: two digits per byte,
/// high nibble first.
pub open spec fn hex_encoding(s: Seq<u8>) -> Seq<u8>
    decreases s.len(),
{
    if s.len() == 0 {
        Seq::empty()
    } else {
        hex_encoding(s.drop_last()) + seq![hex_digit(s.last() / 16), hex_digit(s.last() % 16)]
    }
}

pub proof fn lemma_hex_encoding_len(s: Seq<u8>)
    ensures
        hex_encoding(s).len() == 2 * s.len(),
    decreases s.len(),
{
    if s.len() > 0 {
        lemma_hex_encoding_len(s.drop_last());
    }
}

pub proof fn lemma_hex_encoding_digits(s: Seq<u8>)
    ensures
        forall|i: int| 0 <= i < hex_encoding(s).len() ==> is_hex_digit(#[trigger] hex_encoding(s)[i]),
    decreases s.len(),
{
    if s.len() > 0 {
        lemma_hex_encoding_digits(s.drop_last());
        lemma_hex_encoding_len(s.drop_last());
    }
}

/// Encode a byte string as lowercase hexadecimal.
pub fn encode_hex(bytes: &Vec<u8>) -> (r: Vec<u8>)
    ensures
        r@ == hex_encoding(bytes@),
        r@.len() == 2 * bytes@.len(),
{
    let mut out: Vec<u8> = Vec::new();
    let mut i: usize = 0;
    while i < bytes.len()
        invariant
            i <= bytes@.len(),
            out@ == hex_encoding(bytes@.take(i as int)),
            out@.len() == 2 * i,
        decreases bytes@.len() - i,
    {
        proof {
            lemma_hex_encoding_len(bytes@.take(i as int));
        }
        let b = bytes[i];
        let hi = b / 16;
        let lo = b % 16;
        out.push(if hi < 10 { ('0' as u8) + hi } else { ('a' as u8) + (hi - 10) });
        out.push(if lo < 10 { ('0' as u8) + lo } else { ('a' as u8) + (lo - 10) });
        proof {
            let t1 = bytes@.take(i + 1);
            assert(t1.drop_last() =~= bytes@.take(i as int));
            assert(t1.last() == bytes@[i as int]);
            assert(out@ =~= hex_encoding(t1));
        }
        i = i + 1;
    }
    proof {
        assert(bytes@.take(bytes@.len() as int) =~= bytes@);
    }
    out
}

/// Why decoding a hexadecimal string failed.
#[derive(PartialEq, Eq, Structural, Clone, Copy, Debug)]
pub enum HexError {
    /// The string has an odd number of digits.
    OddLength,
    /// Some character is not a lowercase hexadecimal digit.
    InvalidDigit,
}

/// Byte string denoted by a string of lowercase hexadecimal digit pairs.
pub open spec fn hex_decoding(s: Seq<u8>) -> Seq<u8>
    recommends
        s.len() % 2 == 0,
    decreases s.len(),
{
    if s.len() < 2 {
        Seq::empty()
    } else {
        hex_decoding(s.take(s.len() - 2))
            + seq![(hex_value(s[s.len() - 2]) * 16 + hex_value(s[s.len() - 1])) as u8]
    }
}

/// Encoding then decoding gives the original byte string back.
pub proof fn lemma_hex_round_trip(s: Seq<u8>)
    ensures
        hex_decoding(hex_encoding(s)) == s,
    decreases s.len(),
{
    if s.len() == 0 {
        assert(hex_decoding(hex_encoding(s)) =~= s);
    } else {
        lemma_hex_round_trip(s.drop_last());
        lemma_hex_encoding_len(s.drop_last());
        let e = hex_encoding(s);
        assert(e.take(e.len() - 2) =~= hex_encoding(s.drop_last()));
        assert(hex_decoding(e) =~= s);
    }
}

/// Numeric value of one lowercase hexadecimal digit.
fn hex_value_of(b: u8) -> (r: u8)
    requires
        is_hex_digit(b),
    ensures
        r == hex_value(b),
        r < 16,
{
    if b <= ('9' as u8) {
        b - ('0' as u8)
    } else {
        b - ('a' as u8) + 10
    }
}

/// Decode a string of lowercase hexadecimal digits back into bytes.
///
/// Succeeds exactly on strings of evenly many lowercase hexadecimal digits.
pub fn decode_hex(s: &Vec<u8>) -> (r: Result<Vec<u8>, HexError>)
    ensures
        s@.len() % 2 != 0 ==> r == Err::<Vec<u8>, HexError>(HexError::OddLength),
        s@.len() % 2 == 0 && (forall|i: int| 0 <= i < s@.len() ==> is_hex_digit(#[trigger] s@[i]))
            ==> (r matches Ok(v) && v@ == hex_decoding(s@)),
        s@.len() % 2 == 0 && (exists|i: int| 0 <= i < s@.len() && !is_hex_digit(#[trigger] s@[i]))
            ==> r == Err::<Vec<u8>, HexError>(HexError::InvalidDigit),
        r matches Ok(v) ==> (v@ == hex_decoding(s@) && s@.len() % 2 == 0),
{
    if s.len() % 2 != 0 {
        return Err(HexError::OddLength);
    }
    let mut out: Vec<u8> = Vec::new();
    let mut i: usize = 0;
    while i < s.len()
        invariant
            i <= s@.len(),
            i % 2 == 0,
            s@.len() % 2 == 0,
            out@ == hex_decoding(s@.take(i as int)),
            forall|j: int| 0 <= j < i ==> is_hex_digit(#[trigger] s@[j]),
        decreases s@.len() - i,
    {
        let a = s[i];
        let b = s[i + 1];
        if !((('0' as u8) <= a && a <= ('9' as u8)) || (('a' as u8) <= a && a <= ('f' as u8))) {
            return Err(HexError::InvalidDigit);
        }
        if !((('0' as u8) <= b && b <= ('9' as u8)) || (('a' as u8) <= b && b <= ('f' as u8))) {
            return Err(HexError::InvalidDigit);
        }
        let hi = hex_value_of(a);
        let lo = hex_value_of(b);
        out.push(hi * 16 + lo);
        proof {
            let t2 = s@.take(i + 2);
            assert(t2.take(t2.len() - 2) =~= s@.take(i as int));
            assert(t2[t2.len() - 2] == s@[i as int]);
            assert(t2[t2.len() - 1] == s@[i + 1]);
            assert(out@ =~= hex_decoding(t2));
        }
        i = i + 2;
    }
    proof {
        assert(s@.take(s@.len() as int) =~= s@);
    }
    Ok(out)
}

} // verus!
