//! Standard base64 with padding, the encoding of every frame argument.
use vstd::prelude::*;

verus! {

/// The padding byte `=`.
pub open spec fn pad() -> u8 {
    61u8
}

/// The byte of the standard alphabet `A-Z a-z 0-9 + /` for a six-bit value.
pub open spec fn b64_digit(v: u8) -> u8 {
    if v < 26 {
        (65 + v) as u8
    } else if v < 52 {
        (97 + (v - 26)) as u8
    } else if v < 62 {
        (48 + (v - 52)) as u8
    } else if v == 62 {
        43u8
    } else {
        47u8
    }
}

/// Standard base64 of `b`: each group of three bytes becomes four digits, and
/// a final group of one or two bytes is padded with `=` to four.
pub open spec fn b64_encode(b: Seq<u8>) -> Seq<u8>
    decreases b.len(),
{
    if b.len() == 0 {
        seq![]
    } else if b.len() == 1 {
        seq![b64_digit(b[0] >> 2), b64_digit((b[0] & 3) << 4), pad(), pad()]
    } else if b.len() == 2 {
        seq![
            b64_digit(b[0] >> 2),
            b64_digit(((b[0] & 3) << 4) | (b[1] >> 4)),
            b64_digit((b[1] & 15) << 2),
            pad(),
        ]
    } else {
        seq![
            b64_digit(b[0] >> 2),
            b64_digit(((b[0] & 3) << 4) | (b[1] >> 4)),
            b64_digit(((b[1] & 15) << 2) | (b[2] >> 6)),
            b64_digit(b[2] & 63),
        ] + b64_encode(b.subrange(3, b.len() as int))
    }
}

/// A byte that standard base64 output may hold: a digit or the padding.
pub open spec fn is_b64_byte(c: u8) -> bool {
    (65 <= c <= 90) || (97 <= c <= 122) || (48 <= c <= 57) || c == 43 || c == 47 || c == 61
}

proof fn lemma_digit(v: u8, w: u8)
    requires
        v < 64,
        w < 64,
    ensures
        b64_digit(v) != pad(),
        is_b64_byte(b64_digit(v)),
        b64_digit(v) == b64_digit(w) ==> v == w,
{
}

/// Every byte of an encoding is in the alphabet or is padding, and its
/// length is four for each started group of three.
pub proof fn lemma_b64_shape(b: Seq<u8>)
    ensures
        b64_encode(b).len() == 4 * ((b.len() + 2) / 3),
        forall|i: int| 0 <= i < b64_encode(b).len() ==> is_b64_byte(#[trigger] b64_encode(b)[i]),
    decreases b.len(),
{
    if b.len() >= 1 {
        let x0 = b[0];
        assert(x0 >> 2 < 64 && (x0 & 3) << 4 < 64) by (bit_vector);
        lemma_digit(x0 >> 2, 0);
        lemma_digit((x0 & 3) << 4, 0);
    }
    if b.len() >= 2 {
        let (x0, x1) = (b[0], b[1]);
        assert(((x0 & 3) << 4) | (x1 >> 4) < 64 && (x1 & 15) << 2 < 64) by (bit_vector);
        lemma_digit(((x0 & 3) << 4) | (x1 >> 4), 0);
        lemma_digit((x1 & 15) << 2, 0);
    }
    if b.len() >= 3 {
        let (x1, x2) = (b[1], b[2]);
        assert(((x1 & 15) << 2) | (x2 >> 6) < 64 && x2 & 63 < 64) by (bit_vector);
        lemma_digit(((x1 & 15) << 2) | (x2 >> 6), 0);
        lemma_digit(x2 & 63, 0);
        let rest = b.subrange(3, b.len() as int);
        lemma_b64_shape(rest);
        assert forall|i: int| 0 <= i < b64_encode(b).len() implies is_b64_byte(
            #[trigger] b64_encode(b)[i],
        ) by {
            if i >= 4 {
                assert(b64_encode(b)[i] == b64_encode(rest)[i - 4]);
            }
        }
    }
}

/// Different byte strings have different encodings.
pub proof fn lemma_b64_injective(a: Seq<u8>, b: Seq<u8>)
    requires
        b64_encode(a) == b64_encode(b),
    ensures
        a == b,
    decreases a.len(),
{
    lemma_b64_shape(a);
    lemma_b64_shape(b);
    let e = b64_encode(a);
    if a.len() == 0 || b.len() == 0 {
        assert(a.len() == 0 && b.len() == 0);
        assert(a =~= b);
        return;
    }
    let (x0, y0) = (a[0], b[0]);
    assert(x0 >> 2 < 64 && y0 >> 2 < 64) by (bit_vector);
    lemma_digit(x0 >> 2, y0 >> 2);
    if a.len() >= 3 && b.len() >= 3 {
        let (x1, x2, y1, y2) = (a[1], a[2], b[1], b[2]);
        assert(((x0 & 3) << 4) | (x1 >> 4) < 64 && ((y0 & 3) << 4) | (y1 >> 4) < 64
            && ((x1 & 15) << 2) | (x2 >> 6) < 64 && ((y1 & 15) << 2) | (y2 >> 6) < 64
            && x2 & 63 < 64 && y2 & 63 < 64) by (bit_vector);
        let ra = a.subrange(3, a.len() as int);
        let rb = b.subrange(3, b.len() as int);
        let ga = seq![
            b64_digit(x0 >> 2),
            b64_digit(((x0 & 3) << 4) | (x1 >> 4)),
            b64_digit(((x1 & 15) << 2) | (x2 >> 6)),
            b64_digit(x2 & 63),
        ];
        let gb = seq![
            b64_digit(y0 >> 2),
            b64_digit(((y0 & 3) << 4) | (y1 >> 4)),
            b64_digit(((y1 & 15) << 2) | (y2 >> 6)),
            b64_digit(y2 & 63),
        ];
        assert(e == ga + b64_encode(ra));
        assert(e == gb + b64_encode(rb));
        assert(ga =~= e.subrange(0, 4));
        assert(gb =~= e.subrange(0, 4));
        assert(ga[0] == gb[0] && ga[1] == gb[1] && ga[2] == gb[2] && ga[3] == gb[3]);
        lemma_digit(((x0 & 3) << 4) | (x1 >> 4), ((y0 & 3) << 4) | (y1 >> 4));
        lemma_digit(((x1 & 15) << 2) | (x2 >> 6), ((y1 & 15) << 2) | (y2 >> 6));
        lemma_digit(x2 & 63, y2 & 63);
        assert(x0 == y0 && x1 == y1 && x2 == y2) by (bit_vector)
            requires
                x0 >> 2 == y0 >> 2,
                ((x0 & 3) << 4) | (x1 >> 4) == ((y0 & 3) << 4) | (y1 >> 4),
                ((x1 & 15) << 2) | (x2 >> 6) == ((y1 & 15) << 2) | (y2 >> 6),
                x2 & 63 == y2 & 63,
        ;
        assert(b64_encode(ra) =~= e.subrange(4, e.len() as int));
        assert(b64_encode(rb) =~= e.subrange(4, e.len() as int));
        lemma_b64_injective(ra, rb);
        assert(a =~= seq![x0, x1, x2] + ra);
        assert(b =~= seq![y0, y1, y2] + rb);
    } else if a.len() == 1 && b.len() == 1 {
        assert(((x0 & 3) << 4) < 64 && ((y0 & 3) << 4) < 64) by (bit_vector);
        lemma_digit((x0 & 3) << 4, (y0 & 3) << 4);
        assert(x0 == y0) by (bit_vector)
            requires
                x0 >> 2 == y0 >> 2,
                (x0 & 3) << 4 == (y0 & 3) << 4,
        ;
        assert(a =~= b);
    } else if a.len() == 2 && b.len() == 2 {
        let (x1, y1) = (a[1], b[1]);
        assert(((x0 & 3) << 4) | (x1 >> 4) < 64 && ((y0 & 3) << 4) | (y1 >> 4) < 64
            && (x1 & 15) << 2 < 64 && (y1 & 15) << 2 < 64) by (bit_vector);
        lemma_digit(((x0 & 3) << 4) | (x1 >> 4), ((y0 & 3) << 4) | (y1 >> 4));
        lemma_digit((x1 & 15) << 2, (y1 & 15) << 2);
        assert(x0 == y0 && x1 == y1) by (bit_vector)
            requires
                x0 >> 2 == y0 >> 2,
                ((x0 & 3) << 4) | (x1 >> 4) == ((y0 & 3) << 4) | (y1 >> 4),
                (x1 & 15) << 2 == (y1 & 15) << 2,
        ;
        assert(a =~= b);
    } else {
        // Groups of different sizes differ in where the padding starts.
        if a.len() == 1 || b.len() == 1 {
            let c = if a.len() == 1 { b } else { a };
            let (z0, z1) = (c[0], c[1]);
            assert(((z0 & 3) << 4) | (z1 >> 4) < 64) by (bit_vector);
            lemma_digit(((z0 & 3) << 4) | (z1 >> 4), 0);
            if c.len() == 2 {
                assert((z1 & 15) << 2 < 64) by (bit_vector);
                lemma_digit((z1 & 15) << 2, 0);
            } else {
                let z2 = c[2];
                assert(((z1 & 15) << 2) | (z2 >> 6) < 64) by (bit_vector);
                lemma_digit(((z1 & 15) << 2) | (z2 >> 6), 0);
            }
        } else {
            let c = if a.len() == 2 { b } else { a };
            let z2 = c[2];
            assert(z2 & 63 < 64) by (bit_vector);
            lemma_digit(z2 & 63, 0);
        }
    }
}

/// Relies on base64's `Engine::encode` with the `STANDARD` engine (standard
/// alphabet, padding on).
#[verifier::external_body]
pub(crate) fn encode_b64(b: &[u8]) -> (r: Vec<u8>)
    ensures
        r@ == b64_encode(b@),
{
    base64::Engine::encode(&base64::engine::general_purpose::STANDARD, b).into_bytes()
}

/// Relies on base64's `Engine::decode` with the `STANDARD` engine, which
/// requires canonical padding and zero trailing bits: it accepts exactly what
/// `encode` produces, and returns the bytes that were encoded.
#[verifier::external_body]
pub(crate) fn decode_b64(s: &[u8]) -> (r: Option<Vec<u8>>)
    ensures
        r is Some <==> exists|b: Seq<u8>| b64_encode(b) == s@,
        r matches Some(v) ==> b64_encode(v@) == s@,
{
    base64::Engine::decode(&base64::engine::general_purpose::STANDARD, s).ok()
}

} // verus!
