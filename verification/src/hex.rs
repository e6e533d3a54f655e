//! Hex encoding and decoding of digest values, specified exactly and verified.

use vstd::prelude::*;

verus! {

/// Whether `b` is the ASCII code of a hex digit.
pub open spec fn is_hex_digit(b: u8) -> bool {
    (48 <= b && b <= 57) || (97 <= b && b <= 102) || (65 <= b && b <= 70)
}

/// The numeric value of a hex digit's ASCII code.
pub open spec fn hex_digit_val(b: u8) -> u8 {
    if 48 <= b && b <= 57 {
        (b - 48) as u8
    } else if 97 <= b && b <= 102 {
        (b - 97 + 10) as u8
    } else {
        (b - 65 + 10) as u8
    }
}

/// A well-formed hex string: even length, every byte a hex digit.
pub open spec fn is_hex_seq(s: Seq<u8>) -> bool {
    s.len() % 2 == 0 && forall|i: int| 0 <= i < s.len() ==> is_hex_digit(#[trigger] s[i])
}

/// The byte denoted by the two hex digits `hi`, `lo`.
pub open spec fn hex_byte(hi: u8, lo: u8) -> u8 {
    (hex_digit_val(hi) * 16 + hex_digit_val(lo)) as u8
}

/// The bytes denoted by a hex string, two digits per byte.
pub open spec fn hex_decode_seq(s: Seq<u8>) -> Seq<u8>
    decreases s.len(),
{
    if s.len() < 2 {
        Seq::empty()
    } else {
        hex_decode_seq(s.take(s.len() - 2)) + seq![
            hex_byte(s[s.len() - 2], s[s.len() - 1]),
        ]
    }
}

/// The lower-case ASCII hex digit for a value below 16.
pub open spec fn hex_digit_char(v: u8) -> u8 {
    if v < 10 {
        (v + 48) as u8
    } else {
        ((v - 10) + 97) as u8
    }
}

/// The lower-case hex string denoting `b`, two digits per byte.
pub open spec fn hex_encode_seq(b: Seq<u8>) -> Seq<u8>
    decreases b.len(),
{
    if b.len() == 0 {
        Seq::empty()
    } else {
        hex_encode_seq(b.drop_last()) + seq![
            hex_digit_char(b.last() / 16),
            hex_digit_char(b.last() % 16),
        ]
    }
}

/// An encoded string spends exactly two digits per byte.
pub proof fn lemma_hex_encode_len(b: Seq<u8>)
    ensures
        hex_encode_seq(b).len() == 2 * b.len(),
    decreases b.len(),
{
    if b.len() > 0 {
        lemma_hex_encode_len(b.drop_last());
    }
}

/// An encoded string is well-formed hex.
pub proof fn lemma_hex_encode_is_hex(b: Seq<u8>)
    ensures
        is_hex_seq(hex_encode_seq(b)),
    decreases b.len(),
{
    if b.len() > 0 {
        lemma_hex_encode_is_hex(b.drop_last());
        lemma_hex_encode_len(b.drop_last());
        let e = hex_encode_seq(b);
        assert forall|i: int| 0 <= i < e.len() implies is_hex_digit(#[trigger] e[i]) by {
            if i < e.len() - 2 {
                assert(e[i] == hex_encode_seq(b.drop_last())[i]);
            }
        }
    }
}

/// Encoding some bytes and decoding the result gives those bytes back.
pub proof fn lemma_hex_round_trip(b: Seq<u8>)
    ensures
        hex_decode_seq(hex_encode_seq(b)) == b,
    decreases b.len(),
{
    if b.len() == 0 {
        assert(hex_decode_seq(hex_encode_seq(b)) =~= b);
    } else {
        lemma_hex_round_trip(b.drop_last());
        lemma_hex_encode_len(b.drop_last());
        let e = hex_encode_seq(b);
        assert(e.take(e.len() - 2) =~= hex_encode_seq(b.drop_last()));
        assert(e[e.len() - 2] == hex_digit_char(b.last() / 16));
        assert(e[e.len() - 1] == hex_digit_char(b.last() % 16));
        assert(hex_byte(hex_digit_char(b.last() / 16), hex_digit_char(b.last() % 16))
            == b.last()) by {
            vstd::arithmetic::div_mod::lemma_fundamental_div_mod(b.last() as int, 16);
        }
        assert(hex_decode_seq(e) =~= b);
    }
}

/// The numeric value of one ASCII byte as a hex digit, if it is one.
fn hex_val_of(b: u8) -> (r: Option<u8>)
    ensures
        r is Some <==> is_hex_digit(b),
        r matches Some(v) ==> v == hex_digit_val(b) && v < 16,
{
    if 48 <= b && b <= 57 {
        Some(b - 48)
    } else if 97 <= b && b <= 102 {
        Some(b - 97 + 10)
    } else if 65 <= b && b <= 70 {
        Some(b - 65 + 10)
    } else {
        None
    }
}

/// Decodes a hex string into bytes; yields `None` exactly when the input is
/// not well-formed hex.
pub fn hex_decode(s: &[u8]) -> (r: Option<Vec<u8>>)
    ensures
        r is Some <==> is_hex_seq(s@),
        r matches Some(v) ==> v@ == hex_decode_seq(s@) && v@.len() == s@.len() / 2,
{
    let n = s.len();
    if n % 2 != 0 {
        return None;
    }
    let mut out: Vec<u8> = Vec::with_capacity(n / 2);
    let mut i: usize = 0;
    while i < n
        invariant
            n == s@.len(),
            i <= n,
            i % 2 == 0,
            n % 2 == 0,
            forall|j: int| 0 <= j < i ==> is_hex_digit(#[trigger] s@[j]),
            out@ == hex_decode_seq(s@.take(i as int)),
            out@.len() * 2 == i,
        decreases n - i,
    {
        let hi = match hex_val_of(s[i]) {
            Some(v) => v,
            None => {
                assert(!is_hex_digit(s@[i as int]));
                return None;
            },
        };
        let lo = match hex_val_of(s[i + 1]) {
            Some(v) => v,
            None => {
                assert(!is_hex_digit(s@[i as int + 1]));
                return None;
            },
        };
        out.push(hi * 16 + lo);
        proof {
            let t = s@.take(i as int + 2);
            assert(t.take(t.len() - 2) =~= s@.take(i as int));
            assert(t[t.len() - 2] == s@[i as int] && t[t.len() - 1] == s@[i as int + 1]);
            assert(out@ =~= hex_decode_seq(t));
        }
        i += 2;
    }
    proof {
        assert(s@.take(n as int) =~= s@);
    }
    Some(out)
}

/// Encodes bytes as a lower-case ASCII hex string.
pub fn hex_encode(data: &[u8]) -> (r: Vec<u8>)
    ensures
        r@ == hex_encode_seq(data@),
        r@.len() == 2 * data@.len(),
{
    let n = data.len();
    let mut out: Vec<u8> = Vec::with_capacity(if n <= usize::MAX / 2 { n * 2 } else { 0 });
    let mut i: usize = 0;
    while i < n
        invariant
            n == data@.len(),
            i <= n,
            out@ == hex_encode_seq(data@.take(i as int)),
            out@.len() == 2 * i,
        decreases n - i,
    {
        let b = data[i];
        let hi = b / 16;
        let lo = b % 16;
        out.push(if hi < 10 { hi + 48 } else { hi - 10 + 97 });
        out.push(if lo < 10 { lo + 48 } else { lo - 10 + 97 });
        proof {
            let t = data@.take(i as int + 1);
            assert(t.drop_last() =~= data@.take(i as int));
            assert(t.last() == data@[i as int]);
            assert(out@ =~= hex_encode_seq(t));
        }
        i += 1;
    }
    proof {
        assert(data@.take(n as int) =~= data@);
        lemma_hex_encode_len(data@);
    }
    out
}

} // verus!
