//! Standard base64 with required canonical padding, modelled exactly.
//!
//! The model works on ASCII bytes: `b64_byte` and `b64_val` map between
//! six-bit values and alphabet bytes, `spec_b64_encode` is the canonical
//! padded encoding, and `spec_b64_decode` accepts exactly the canonical
//! encodings, as the standard engine's decoder does.
use vstd::prelude::*;
use base64::Engine;

verus! {

/// The alphabet value of an ASCII byte: 0 through 63 for alphabet bytes,
/// 255 for anything else (the pad byte `=` is 61 and maps to 255).
pub open spec fn b64_val(b: u8) -> u8 {
    if 65 <= b <= 90 {
        (b - 65) as u8
    } else if 97 <= b <= 122 {
        (b - 71) as u8
    } else if 48 <= b <= 57 {
        (b + 4) as u8
    } else if b == 43 {
        62
    } else if b == 47 {
        63
    } else {
        255
    }
}

/// The alphabet byte of a six-bit value: letters, digits, `+`, `/`.
pub open spec fn b64_byte(v: u8) -> u8 {
    if v < 26 {
        (v + 65) as u8
    } else if v < 52 {
        (v + 71) as u8
    } else if v < 62 {
        (v - 4) as u8
    } else if v == 62 {
        43
    } else {
        47
    }
}

/// The canonical padded base64 encoding of a byte sequence.
pub open spec fn spec_b64_encode(b: Seq<u8>) -> Seq<u8>
    decreases b.len(),
{
    if b.len() == 0 {
        Seq::empty()
    } else if b.len() == 1 {
        seq![b64_byte(b[0] >> 2), b64_byte((b[0] & 3) << 4), 61u8, 61u8]
    } else if b.len() == 2 {
        seq![
            b64_byte(b[0] >> 2),
            b64_byte((b[0] & 3) << 4 | b[1] >> 4),
            b64_byte((b[1] & 15) << 2),
            61u8,
        ]
    } else {
        seq![
            b64_byte(b[0] >> 2),
            b64_byte((b[0] & 3) << 4 | b[1] >> 4),
            b64_byte((b[1] & 15) << 2 | b[2] >> 6),
            b64_byte(b[2] & 63),
        ] + spec_b64_encode(b.skip(3))
    }
}

/// The canonical decode: `Some` exactly for canonical padded encodings.
/// Padding may appear only in the final four bytes, and the unused low bits
/// of the final symbol must be zero.
pub open spec fn spec_b64_decode(s: Seq<u8>) -> Option<Seq<u8>>
    decreases s.len(),
{
    if s.len() == 0 {
        Some(Seq::empty())
    } else if s.len() % 4 != 0 {
        None
    } else if s.len() == 4 {
        let v0 = b64_val(s[0]);
        let v1 = b64_val(s[1]);
        if v0 == 255 || v1 == 255 {
            None
        } else if s[2] == 61 && s[3] == 61 {
            if v1 & 15 == 0 {
                Some(seq![(v0 << 2 | v1 >> 4)])
            } else {
                None
            }
        } else if s[3] == 61 {
            let v2 = b64_val(s[2]);
            if v2 == 255 {
                None
            } else if v2 & 3 == 0 {
                Some(seq![v0 << 2 | v1 >> 4, (v1 & 15) << 4 | v2 >> 2])
            } else {
                None
            }
        } else {
            let v2 = b64_val(s[2]);
            let v3 = b64_val(s[3]);
            if v2 == 255 || v3 == 255 {
                None
            } else {
                Some(seq![v0 << 2 | v1 >> 4, (v1 & 15) << 4 | v2 >> 2, (v2 & 3) << 6 | v3])
            }
        }
    } else {
        let v0 = b64_val(s[0]);
        let v1 = b64_val(s[1]);
        let v2 = b64_val(s[2]);
        let v3 = b64_val(s[3]);
        if v0 == 255 || v1 == 255 || v2 == 255 || v3 == 255 {
            None
        } else {
            match spec_b64_decode(s.skip(4)) {
                Option::None => None,
                Option::Some(rest) => Some(
                    seq![v0 << 2 | v1 >> 4, (v1 & 15) << 4 | v2 >> 2, (v2 & 3) << 6 | v3] + rest,
                ),
            }
        }
    }
}

/// Mapping a six-bit value into the alphabet and back is the identity, and
/// never yields the pad byte.
proof fn lemma_b64_byte_val(v: u8)
    requires
        v < 64,
    ensures
        b64_val(b64_byte(v)) == v,
        b64_byte(v) != 61,
{
}

/// The encoding's length is a multiple of four, and positive for a
/// non-empty input.
proof fn lemma_encode_len(b: Seq<u8>)
    ensures
        spec_b64_encode(b).len() % 4 == 0,
        b.len() > 0 ==> spec_b64_encode(b).len() > 0,
    decreases b.len(),
{
    if b.len() > 2 {
        lemma_encode_len(b.skip(3));
    }
}

/// Base64 round trip: decoding the canonical encoding of any byte sequence
/// returns exactly that sequence.
pub proof fn lemma_b64_round_trip(b: Seq<u8>)
    ensures
        spec_b64_decode(spec_b64_encode(b)) == Some(b),
    decreases b.len(),
{
    if b.len() == 0 {
        assert(spec_b64_encode(b) =~= Seq::<u8>::empty());
        assert(spec_b64_decode(Seq::<u8>::empty()) =~= Some(Seq::<u8>::empty()));
        assert(b =~= Seq::<u8>::empty());
    } else if b.len() == 1 {
        let b0 = b[0];
        assert((b0 >> 2) < 64 && ((b0 & 3) << 4) < 64) by (bit_vector);
        lemma_b64_byte_val(b0 >> 2);
        lemma_b64_byte_val((b0 & 3) << 4);
        assert(((b0 & 3) << 4) & 15 == 0) by (bit_vector);
        assert((b0 >> 2) << 2 | ((b0 & 3) << 4) >> 4 == b0) by (bit_vector);
        assert(spec_b64_decode(spec_b64_encode(b)) == Some(seq![b0]));
        assert(seq![b0] =~= b);
    } else if b.len() == 2 {
        let b0 = b[0];
        let b1 = b[1];
        assert((b0 >> 2) < 64 && ((b0 & 3) << 4 | b1 >> 4) < 64 && ((b1 & 15) << 2) < 64)
            by (bit_vector);
        lemma_b64_byte_val(b0 >> 2);
        lemma_b64_byte_val((b0 & 3) << 4 | b1 >> 4);
        lemma_b64_byte_val((b1 & 15) << 2);
        assert(((b1 & 15) << 2) & 3 == 0) by (bit_vector);
        assert((b0 >> 2) << 2 | ((b0 & 3) << 4 | b1 >> 4) >> 4 == b0) by (bit_vector);
        assert((((b0 & 3) << 4 | b1 >> 4) & 15) << 4 | ((b1 & 15) << 2) >> 2 == b1)
            by (bit_vector);
        assert(spec_b64_decode(spec_b64_encode(b)) == Some(seq![b0, b1]));
        assert(seq![b0, b1] =~= b);
    } else {
        let b0 = b[0];
        let b1 = b[1];
        let b2 = b[2];
        let c0 = b64_byte(b0 >> 2);
        let c1 = b64_byte((b0 & 3) << 4 | b1 >> 4);
        let c2 = b64_byte((b1 & 15) << 2 | b2 >> 6);
        let c3 = b64_byte(b2 & 63);
        assert((b0 >> 2) < 64 && ((b0 & 3) << 4 | b1 >> 4) < 64 && ((b1 & 15) << 2 | b2 >> 6) < 64
            && (b2 & 63) < 64) by (bit_vector);
        lemma_b64_byte_val(b0 >> 2);
        lemma_b64_byte_val((b0 & 3) << 4 | b1 >> 4);
        lemma_b64_byte_val((b1 & 15) << 2 | b2 >> 6);
        lemma_b64_byte_val(b2 & 63);
        assert((b0 >> 2) << 2 | ((b0 & 3) << 4 | b1 >> 4) >> 4 == b0) by (bit_vector);
        assert((((b0 & 3) << 4 | b1 >> 4) & 15) << 4 | ((b1 & 15) << 2 | b2 >> 6) >> 2 == b1)
            by (bit_vector);
        assert((((b1 & 15) << 2 | b2 >> 6) & 3) << 6 | (b2 & 63) == b2) by (bit_vector);
        let s = spec_b64_encode(b);
        let quad = seq![c0, c1, c2, c3];
        if b.len() == 3 {
            assert(spec_b64_encode(b.skip(3)) =~= Seq::<u8>::empty());
            assert(s =~= quad);
            assert(spec_b64_decode(s) == Some(seq![b0, b1, b2]));
            assert(seq![b0, b1, b2] =~= b);
        } else {
            lemma_b64_round_trip(b.skip(3));
            lemma_encode_len(b.skip(3));
            let rest = spec_b64_encode(b.skip(3));
            assert(s =~= quad + rest);
            assert(s.len() == 4 + rest.len());
            assert(s.len() % 4 == 0);
            assert(s.len() > 4);
            assert(s[0] == c0 && s[1] == c1 && s[2] == c2 && s[3] == c3);
            assert(s.skip(4) =~= rest);
            assert(spec_b64_decode(s) == Some(seq![b0, b1, b2] + b.skip(3)));
            assert(seq![b0, b1, b2] + b.skip(3) =~= b);
        }
    }
}

/// Relies on `base64::engine::general_purpose::STANDARD`'s `decode`: the
/// standard alphabet with padding required to be canonical and trailing bits
/// disallowed, so it accepts exactly the canonical padded encodings; the
/// failure text comes from the error's `Display` impl.
#[verifier::external_body]
pub(crate) fn b64_decode_bytes(s: &[u8]) -> (r: Result<Vec<u8>, String>)
    ensures
        match r {
            Result::Ok(v) => spec_b64_decode(s@) == Some(v@),
            Result::Err(_) => spec_b64_decode(s@) is None,
        },
{
    match base64::engine::general_purpose::STANDARD.decode(s) {
        Ok(v) => Ok(v),
        Err(e) => Err(format!("{}", e)),
    }
}

} // verus!
