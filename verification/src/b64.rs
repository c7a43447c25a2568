//! URL-safe base64 without padding, over bytes.
//!
//! Token framing encodes the header and claims segments with this alphabet
//! (`A`-`Z`, `a`-`z`, `0`-`9`, `-`, `_`), the variant used by the access-token
//! wire format. Decoding is strict: it rejects foreign bytes, lengths that no
//! encoding produces, and non-canonical trailing bits.

use vstd::prelude::*;

verus! {

/// The alphabet byte that stands for a 6-bit value.
pub open spec fn b64_byte_of(v: int) -> u8 {
    if 0 <= v < 26 {
        (65 + v) as u8
    } else if 26 <= v < 52 {
        (97 + (v - 26)) as u8
    } else if 52 <= v < 62 {
        (48 + (v - 52)) as u8
    } else if v == 62 {
        45u8
    } else {
        95u8
    }
}

/// The 6-bit value of an alphabet byte, or -1 for a byte outside the alphabet.
pub open spec fn b64_val_of(b: u8) -> int {
    if 65 <= b <= 90 {
        b - 65
    } else if 97 <= b <= 122 {
        (b - 97) + 26
    } else if 48 <= b <= 57 {
        (b - 48) + 52
    } else if b == 45 {
        62
    } else if b == 95 {
        63
    } else {
        -1
    }
}

pub open spec fn is_b64url_byte(b: u8) -> bool {
    b64_val_of(b) >= 0
}

proof fn lemma_byte_val_inverse(v: int)
    requires
        0 <= v < 64,
    ensures
        b64_val_of(b64_byte_of(v)) == v,
        is_b64url_byte(b64_byte_of(v)),
{
}

/// The encoding of a byte sequence: 6-bit groups mapped through the alphabet,
/// without padding.
pub open spec fn spec_b64_encode(s: Seq<u8>) -> Seq<u8>
    decreases s.len(),
{
    if s.len() == 0 {
        Seq::<u8>::empty()
    } else if s.len() == 1 {
        seq![
            b64_byte_of((s[0] >> 2u8) as int),
            b64_byte_of((((s[0] & 3u8) as u8) << 4u8) as int),
        ]
    } else if s.len() == 2 {
        seq![
            b64_byte_of((s[0] >> 2u8) as int),
            b64_byte_of(((((s[0] & 3u8) as u8) << 4u8) | (s[1] >> 4u8)) as int),
            b64_byte_of((((s[1] & 15u8) as u8) << 2u8) as int),
        ]
    } else {
        seq![
            b64_byte_of((s[0] >> 2u8) as int),
            b64_byte_of(((((s[0] & 3u8) as u8) << 4u8) | (s[1] >> 4u8)) as int),
            b64_byte_of(((((s[1] & 15u8) as u8) << 2u8) | (s[2] >> 6u8)) as int),
            b64_byte_of((s[2] & 63u8) as int),
        ] + spec_b64_encode(s.skip(3))
    }
}

/// The strict decoding of an encoded sequence; `None` where no byte sequence
/// encodes to the input.
pub open spec fn spec_b64_decode(s: Seq<u8>) -> Option<Seq<u8>>
    decreases s.len(),
{
    if s.len() == 0 {
        Some(Seq::<u8>::empty())
    } else if s.len() == 1 {
        None
    } else if s.len() == 2 {
        let v0 = b64_val_of(s[0]);
        let v1 = b64_val_of(s[1]);
        if v0 >= 0 && v1 >= 0 && ((v1 as u8) & 15u8) == 0u8 {
            Some(seq![(((v0 as u8) << 2u8) | ((v1 as u8) >> 4u8)) as u8])
        } else {
            None
        }
    } else if s.len() == 3 {
        let v0 = b64_val_of(s[0]);
        let v1 = b64_val_of(s[1]);
        let v2 = b64_val_of(s[2]);
        if v0 >= 0 && v1 >= 0 && v2 >= 0 && ((v2 as u8) & 3u8) == 0u8 {
            Some(
                seq![
                    (((v0 as u8) << 2u8) | ((v1 as u8) >> 4u8)) as u8,
                    ((((v1 as u8) & 15u8) << 4u8) | ((v2 as u8) >> 2u8)) as u8,
                ],
            )
        } else {
            None
        }
    } else {
        let v0 = b64_val_of(s[0]);
        let v1 = b64_val_of(s[1]);
        let v2 = b64_val_of(s[2]);
        let v3 = b64_val_of(s[3]);
        if v0 >= 0 && v1 >= 0 && v2 >= 0 && v3 >= 0 {
            match spec_b64_decode(s.skip(4)) {
                Some(rest) => Some(
                    seq![
                        (((v0 as u8) << 2u8) | ((v1 as u8) >> 4u8)) as u8,
                        ((((v1 as u8) & 15u8) << 4u8) | ((v2 as u8) >> 2u8)) as u8,
                        ((((v2 as u8) & 3u8) << 6u8) | (v3 as u8)) as u8,
                    ] + rest,
                ),
                None => None,
            }
        } else {
            None
        }
    }
}

/// Every byte the encoder emits lies in the alphabet.
pub proof fn lemma_b64_encode_bytes_in_alphabet(s: Seq<u8>)
    ensures
        forall|i: int|
            0 <= i < spec_b64_encode(s).len() ==> #[trigger] is_b64url_byte(spec_b64_encode(s)[i]),
    decreases s.len(),
{
    if s.len() == 0 {
    } else if s.len() == 1 {
        assert forall|i: int| 0 <= i < spec_b64_encode(s).len() implies #[trigger] is_b64url_byte(
            spec_b64_encode(s)[i],
        ) by {
            let b0 = s[0];
            assert((b0 >> 2u8) < 64 && ((((b0 & 3u8) as u8) << 4u8)) < 64) by (bit_vector);
        }
    } else if s.len() == 2 {
        assert forall|i: int| 0 <= i < spec_b64_encode(s).len() implies #[trigger] is_b64url_byte(
            spec_b64_encode(s)[i],
        ) by {
            let b0 = s[0];
            let b1 = s[1];
            assert((b0 >> 2u8) < 64 && ((((b0 & 3u8) as u8) << 4u8) | (b1 >> 4u8)) < 64 && ((((b1
                & 15u8) as u8) << 2u8)) < 64) by (bit_vector);
        }
    } else {
        lemma_b64_encode_bytes_in_alphabet(s.skip(3));
        assert forall|i: int| 0 <= i < spec_b64_encode(s).len() implies #[trigger] is_b64url_byte(
            spec_b64_encode(s)[i],
        ) by {
            let b0 = s[0];
            let b1 = s[1];
            let b2 = s[2];
            assert((b0 >> 2u8) < 64 && ((((b0 & 3u8) as u8) << 4u8) | (b1 >> 4u8)) < 64 && ((((b1
                & 15u8) as u8) << 2u8) | (b2 >> 6u8)) < 64 && (b2 & 63u8) < 64) by (bit_vector);
            if i >= 4 {
                assert(spec_b64_encode(s)[i] == spec_b64_encode(s.skip(3))[i - 4]);
            }
        }
    }
}

/// Encoding distributes over concatenation at 3-byte block boundaries.
pub proof fn lemma_b64_encode_concat(s: Seq<u8>, t: Seq<u8>)
    requires
        s.len() % 3 == 0,
    ensures
        spec_b64_encode(s + t) == spec_b64_encode(s) + spec_b64_encode(t),
    decreases s.len(),
{
    if s.len() == 0 {
        assert(s + t =~= t);
        assert(spec_b64_encode(s) + spec_b64_encode(t) =~= spec_b64_encode(t));
    } else {
        assert(s.len() >= 3);
        let u = s + t;
        if t.len() == 0 {
            assert(u =~= s);
            assert(spec_b64_encode(s) + spec_b64_encode(t) =~= spec_b64_encode(s));
        } else {
            assert(u.len() > 3);
            assert(u.skip(3) =~= s.skip(3) + t);
            lemma_b64_encode_concat(s.skip(3), t);
            assert(spec_b64_encode(u) =~= spec_b64_encode(s) + spec_b64_encode(t));
        }
    }
}

/// Decoding distributes over concatenation at 4-byte block boundaries.
pub proof fn lemma_b64_decode_concat(s: Seq<u8>, t: Seq<u8>)
    requires
        s.len() % 4 == 0,
    ensures
        spec_b64_decode(s + t) == match (spec_b64_decode(s), spec_b64_decode(t)) {
            (Some(a), Some(b)) => Some(a + b),
            _ => None::<Seq<u8>>,
        },
    decreases s.len(),
{
    if s.len() == 0 {
        assert(s + t =~= t);
        if spec_b64_decode(t) is Some {
            assert(spec_b64_decode(s)->0 + spec_b64_decode(t)->0 =~= spec_b64_decode(t)->0);
        }
    } else {
        assert(s.len() >= 4);
        let u = s + t;
        assert(u.len() >= 4);
        assert(u[0] == s[0] && u[1] == s[1] && u[2] == s[2] && u[3] == s[3]);
        if t.len() == 0 {
            assert(u =~= s);
            if spec_b64_decode(s) is Some {
                assert(spec_b64_decode(s)->0 + spec_b64_decode(t)->0 =~= spec_b64_decode(s)->0);
            }
        } else {
            assert(u.len() > 4);
            assert(u.skip(4) =~= s.skip(4) + t);
            lemma_b64_decode_concat(s.skip(4), t);
            let v0 = b64_val_of(s[0]);
            let v1 = b64_val_of(s[1]);
            let v2 = b64_val_of(s[2]);
            let v3 = b64_val_of(s[3]);
            if v0 >= 0 && v1 >= 0 && v2 >= 0 && v3 >= 0 {
                let g = seq![
                    (((v0 as u8) << 2u8) | ((v1 as u8) >> 4u8)) as u8,
                    ((((v1 as u8) & 15u8) << 4u8) | ((v2 as u8) >> 2u8)) as u8,
                    ((((v2 as u8) & 3u8) << 6u8) | (v3 as u8)) as u8,
                ];
                match (spec_b64_decode(s.skip(4)), spec_b64_decode(t)) {
                    (Some(a), Some(b)) => {
                        assert(spec_b64_decode(s) == Some(g + a));
                        assert(spec_b64_decode(u) == Some(g + (a + b)));
                        assert(g + (a + b) =~= (g + a) + b);
                    },
                    _ => {},
                }
            }
        }
    }
}

/// Decoding inverts encoding.
pub proof fn lemma_b64_round_trip(s: Seq<u8>)
    ensures
        spec_b64_decode(spec_b64_encode(s)) == Some(s),
    decreases s.len(),
{
    if s.len() == 0 {
        assert(spec_b64_encode(s) =~= Seq::<u8>::empty());
        assert(s =~= spec_b64_decode(spec_b64_encode(s))->0);
    } else if s.len() == 1 {
        let b0 = s[0];
        let c0 = (b0 >> 2u8) as int;
        let c1 = ((((b0 & 3u8) as u8) << 4u8)) as int;
        assert((b0 >> 2u8) < 64 && ((((b0 & 3u8) as u8) << 4u8)) < 64) by (bit_vector);
        lemma_byte_val_inverse(c0);
        lemma_byte_val_inverse(c1);
        assert((((((b0 >> 2u8)) as u8) << 2u8) | (((((b0 & 3u8) as u8) << 4u8) as u8) >> 4u8))
            == b0 && (((((b0 & 3u8) as u8) << 4u8) as u8) & 15u8) == 0u8) by (bit_vector);
        assert(spec_b64_decode(spec_b64_encode(s))->0 =~= s);
    } else if s.len() == 2 {
        let b0 = s[0];
        let b1 = s[1];
        let c0 = (b0 >> 2u8) as int;
        let c1 = ((((b0 & 3u8) as u8) << 4u8) | (b1 >> 4u8)) as int;
        let c2 = ((((b1 & 15u8) as u8) << 2u8)) as int;
        assert((b0 >> 2u8) < 64 && (((((b0 & 3u8) as u8) << 4u8) | (b1 >> 4u8))) < 64 && ((((b1
            & 15u8) as u8) << 2u8)) < 64) by (bit_vector);
        lemma_byte_val_inverse(c0);
        lemma_byte_val_inverse(c1);
        lemma_byte_val_inverse(c2);
        assert(((((b0 >> 2u8) as u8) << 2u8) | (((((b0 & 3u8) as u8) << 4u8) | (b1 >> 4u8)) as u8
            >> 4u8)) == b0 && ((((((((b0 & 3u8) as u8) << 4u8) | (b1 >> 4u8)) as u8) & 15u8) << 4u8)
            | ((((b1 & 15u8) as u8) << 2u8) as u8 >> 2u8)) == b1 && (((((b1 & 15u8) as u8) << 2u8)
            as u8) & 3u8) == 0u8) by (bit_vector);
        assert(spec_b64_decode(spec_b64_encode(s))->0 =~= s);
    } else {
        let b0 = s[0];
        let b1 = s[1];
        let b2 = s[2];
        let c0 = (b0 >> 2u8) as int;
        let c1 = ((((b0 & 3u8) as u8) << 4u8) | (b1 >> 4u8)) as int;
        let c2 = ((((b1 & 15u8) as u8) << 2u8) | (b2 >> 6u8)) as int;
        let c3 = (b2 & 63u8) as int;
        assert((b0 >> 2u8) < 64 && (((((b0 & 3u8) as u8) << 4u8) | (b1 >> 4u8))) < 64 && (((((b1
            & 15u8) as u8) << 2u8) | (b2 >> 6u8))) < 64 && (b2 & 63u8) < 64) by (bit_vector);
        lemma_byte_val_inverse(c0);
        lemma_byte_val_inverse(c1);
        lemma_byte_val_inverse(c2);
        lemma_byte_val_inverse(c3);
        lemma_b64_round_trip(s.skip(3));
        let g = seq![
            b64_byte_of(c0),
            b64_byte_of(c1),
            b64_byte_of(c2),
            b64_byte_of(c3),
        ];
        let rest = spec_b64_encode(s.skip(3));
        assert(spec_b64_encode(s) =~= g + rest);
        lemma_b64_decode_concat(g, rest);
        assert(((((b0 >> 2u8) as u8) << 2u8) | (((((b0 & 3u8) as u8) << 4u8) | (b1 >> 4u8)) as u8
            >> 4u8)) == b0 && ((((((((b0 & 3u8) as u8) << 4u8) | (b1 >> 4u8)) as u8) & 15u8) << 4u8)
            | (((((b1 & 15u8) as u8) << 2u8) | (b2 >> 6u8)) as u8 >> 2u8)) == b1 && ((((((((b1
            & 15u8) as u8) << 2u8) | (b2 >> 6u8)) as u8) & 3u8) << 6u8) | (b2 & 63u8)) == b2)
            by (bit_vector);
        assert(c0 as u8 == (b0 >> 2u8) && c1 as u8 == ((((b0 & 3u8) as u8) << 4u8) | (b1
            >> 4u8)) && c2 as u8 == ((((b1 & 15u8) as u8) << 2u8) | (b2 >> 6u8)) && c3 as u8 == (b2
            & 63u8));
        assert(g.len() == 4 && g[0] == b64_byte_of(c0) && g[1] == b64_byte_of(c1) && g[2]
            == b64_byte_of(c2) && g[3] == b64_byte_of(c3));
        assert(b64_val_of(g[0]) == c0 && b64_val_of(g[1]) == c1 && b64_val_of(g[2]) == c2
            && b64_val_of(g[3]) == c3);
        assert(g.skip(4) =~= Seq::<u8>::empty());
        assert(spec_b64_decode(g.skip(4)) == Some(Seq::<u8>::empty()));
        assert(spec_b64_decode(g)->0 =~= seq![b0, b1, b2]);
        assert(spec_b64_decode(spec_b64_encode(s))->0 =~= seq![b0, b1, b2] + s.skip(3));
        assert(seq![b0, b1, b2] + s.skip(3) =~= s);
    }
}

/// Maps a 6-bit value to its alphabet byte.
fn b64_byte(v: u8) -> (r: u8)
    requires
        v < 64,
    ensures
        r == b64_byte_of(v as int),
{
    if v < 26 {
        65 + v
    } else if v < 52 {
        97 + (v - 26)
    } else if v < 62 {
        48 + (v - 52)
    } else if v == 62 {
        45
    } else {
        95
    }
}

/// Maps an alphabet byte back to its 6-bit value, or 255 for a foreign byte.
fn b64_val(b: u8) -> (r: u8)
    ensures
        b64_val_of(b) >= 0 ==> r == b64_val_of(b),
        b64_val_of(b) < 0 ==> r == 255,
{
    if 65 <= b && b <= 90 {
        b - 65
    } else if 97 <= b && b <= 122 {
        (b - 97) + 26
    } else if 48 <= b && b <= 57 {
        (b - 48) + 52
    } else if b == 45 {
        62
    } else if b == 95 {
        63
    } else {
        255
    }
}

/// Encodes bytes as unpadded URL-safe base64.
pub fn b64_encode(input: &[u8]) -> (r: Vec<u8>)
    ensures
        r@ == spec_b64_encode(input@),
{
    let mut out: Vec<u8> = Vec::new();
    let mut i: usize = 0;
    while input.len() - i >= 3
        invariant
            i <= input.len(),
            i % 3 == 0,
            out@ == spec_b64_encode(input@.take(i as int)),
        decreases input.len() - i,
    {
        let b0 = input[i];
        let b1 = input[i + 1];
        let b2 = input[i + 2];
        proof {
            assert((b0 >> 2u8) < 64 && ((((b0 & 3u8) as u8) << 4u8) | (b1 >> 4u8)) < 64 && ((((b1
                & 15u8) as u8) << 2u8) | (b2 >> 6u8)) < 64 && (b2 & 63u8) < 64) by (bit_vector);
        }
        out.push(b64_byte(b0 >> 2u8));
        out.push(b64_byte(((b0 & 3u8) << 4u8) | (b1 >> 4u8)));
        out.push(b64_byte(((b1 & 15u8) << 2u8) | (b2 >> 6u8)));
        out.push(b64_byte(b2 & 63u8));
        proof {
            let pre = input@.take(i as int);
            let block = seq![b0, b1, b2];
            lemma_b64_encode_concat(pre, block);
            assert(pre + block =~= input@.take(i + 3int));
            assert(block.skip(3) =~= Seq::<u8>::empty());
            assert(spec_b64_encode(block.skip(3)) =~= Seq::<u8>::empty());
            assert(spec_b64_encode(block) =~= seq![
                b64_byte_of((b0 >> 2u8) as int),
                b64_byte_of(((((b0 & 3u8) as u8) << 4u8) | (b1 >> 4u8)) as int),
                b64_byte_of(((((b1 & 15u8) as u8) << 2u8) | (b2 >> 6u8)) as int),
                b64_byte_of((b2 & 63u8) as int),
            ]);
            assert(out@ =~= spec_b64_encode(input@.take(i + 3int)));
        }
        i = i + 3;
    }
    let ghost pre = input@.take(i as int);
    let remaining = input.len() - i;
    if remaining == 1 {
        let b0 = input[i];
        proof {
            assert((b0 >> 2u8) < 64 && ((((b0 & 3u8) as u8) << 4u8)) < 64) by (bit_vector);
        }
        out.push(b64_byte(b0 >> 2u8));
        out.push(b64_byte((b0 & 3u8) << 4u8));
        proof {
            let tail = seq![b0];
            lemma_b64_encode_concat(pre, tail);
            assert(pre + tail =~= input@);
            assert(out@ =~= spec_b64_encode(input@));
        }
    } else if remaining == 2 {
        let b0 = input[i];
        let b1 = input[i + 1];
        proof {
            assert((b0 >> 2u8) < 64 && ((((b0 & 3u8) as u8) << 4u8) | (b1 >> 4u8)) < 64 && ((((b1
                & 15u8) as u8) << 2u8)) < 64) by (bit_vector);
        }
        out.push(b64_byte(b0 >> 2u8));
        out.push(b64_byte(((b0 & 3u8) << 4u8) | (b1 >> 4u8)));
        out.push(b64_byte((b1 & 15u8) << 2u8));
        proof {
            let tail = seq![b0, b1];
            lemma_b64_encode_concat(pre, tail);
            assert(pre + tail =~= input@);
            assert(out@ =~= spec_b64_encode(input@));
        }
    } else {
        proof {
            assert(pre =~= input@);
            assert(spec_b64_encode(Seq::<u8>::empty()) =~= Seq::<u8>::empty());
            assert(out@ =~= spec_b64_encode(input@));
        }
    }
    out
}

/// Decodes unpadded URL-safe base64; `None` where the input is not a valid
/// encoding.
pub fn b64_decode(input: &[u8]) -> (r: Option<Vec<u8>>)
    ensures
        match r {
            Some(v) => spec_b64_decode(input@) == Some(v@),
            None => spec_b64_decode(input@) is None,
        },
{
    let mut out: Vec<u8> = Vec::new();
    let mut i: usize = 0;
    while input.len() - i >= 4
        invariant
            i <= input.len(),
            i % 4 == 0,
            spec_b64_decode(input@.take(i as int)) == Some(out@),
        decreases input.len() - i,
    {
        let v0 = b64_val(input[i]);
        let v1 = b64_val(input[i + 1]);
        let v2 = b64_val(input[i + 2]);
        let v3 = b64_val(input[i + 3]);
        proof {
            assert(input@.take(i as int) + input@.skip(i as int) =~= input@);
            lemma_b64_decode_concat(input@.take(i as int), input@.skip(i as int));
        }
        if v0 == 255 || v1 == 255 || v2 == 255 || v3 == 255 {
            proof {
                let suf = input@.skip(i as int);
                assert(suf.len() >= 4);
                assert(suf[0] == input@[i as int] && suf[1] == input@[i + 1] && suf[2] == input@[i
                    + 2] && suf[3] == input@[i + 3]);
                assert(spec_b64_decode(suf) is None);
            }
            return None;
        }
        out.push((v0 << 2u8) | (v1 >> 4u8));
        out.push(((v1 & 15u8) << 4u8) | (v2 >> 2u8));
        out.push(((v2 & 3u8) << 6u8) | v3);
        proof {
            let pre = input@.take(i as int);
            let block = seq![input@[i as int], input@[i + 1], input@[i + 2], input@[i + 3]];
            lemma_b64_decode_concat(pre, block);
            assert(pre + block =~= input@.take(i + 4int));
            assert(b64_val_of(block[0]) == v0 && b64_val_of(block[1]) == v1 && b64_val_of(
                block[2],
            ) == v2 && b64_val_of(block[3]) == v3);
            assert((b64_val_of(block[0]) as u8) == v0 && (b64_val_of(block[1]) as u8) == v1 && (
            b64_val_of(block[2]) as u8) == v2 && (b64_val_of(block[3]) as u8) == v3);
            assert(block.skip(4) =~= Seq::<u8>::empty());
            assert(spec_b64_decode(block.skip(4)) == Some(Seq::<u8>::empty()));
            assert(spec_b64_decode(block) is Some);
            assert(spec_b64_decode(block)->0 =~= seq![
                ((v0 << 2u8) | (v1 >> 4u8)) as u8,
                (((v1 & 15u8) << 4u8) | (v2 >> 2u8)) as u8,
                (((v2 & 3u8) << 6u8) | v3) as u8,
            ]);
            assert(spec_b64_decode(input@.take(i + 4int)) is Some);
            assert(spec_b64_decode(input@.take(i + 4int))->0 =~= out@);
        }
        i = i + 4;
    }
    let remaining = input.len() - i;
    proof {
        assert(input@.take(i as int) + input@.skip(i as int) =~= input@);
        lemma_b64_decode_concat(input@.take(i as int), input@.skip(i as int));
    }
    if remaining == 0 {
        proof {
            assert(spec_b64_decode(input@.skip(i as int)) == Some(Seq::<u8>::empty()));
            assert(out@ + Seq::<u8>::empty() =~= out@);
        }
        Some(out)
    } else if remaining == 1 {
        None
    } else if remaining == 2 {
        let v0 = b64_val(input[i]);
        let v1 = b64_val(input[i + 1]);
        proof {
            let suf = input@.skip(i as int);
            assert(suf.len() == 2);
            assert(suf[0] == input@[i as int] && suf[1] == input@[i + 1]);
        }
        if v0 == 255 || v1 == 255 {
            return None;
        }
        if v1 & 15u8 != 0 {
            return None;
        }
        out.push((v0 << 2u8) | (v1 >> 4u8));
        proof {
            let suf = input@.skip(i as int);
            assert(spec_b64_decode(suf)->0 =~= seq![((v0 << 2u8) | (v1 >> 4u8)) as u8]);
            assert(spec_b64_decode(input@)->0 =~= out@);
        }
        Some(out)
    } else {
        let v0 = b64_val(input[i]);
        let v1 = b64_val(input[i + 1]);
        let v2 = b64_val(input[i + 2]);
        proof {
            let suf = input@.skip(i as int);
            assert(suf.len() == 3);
            assert(suf[0] == input@[i as int] && suf[1] == input@[i + 1] && suf[2] == input@[i
                + 2]);
        }
        if v0 == 255 || v1 == 255 || v2 == 255 {
            return None;
        }
        if v2 & 3u8 != 0 {
            return None;
        }
        out.push((v0 << 2u8) | (v1 >> 4u8));
        out.push(((v1 & 15u8) << 4u8) | (v2 >> 2u8));
        proof {
            let suf = input@.skip(i as int);
            assert(spec_b64_decode(suf)->0 =~= seq![
                ((v0 << 2u8) | (v1 >> 4u8)) as u8,
                (((v1 & 15u8) << 4u8) | (v2 >> 2u8)) as u8,
            ]);
            assert(spec_b64_decode(input@)->0 =~= out@);
        }
        Some(out)
    }
}


/// Whether a byte lies in the URL-safe alphabet.
pub fn is_b64url(b: u8) -> (r: bool)
    ensures
        r == is_b64url_byte(b),
{
    (65 <= b && b <= 90) || (97 <= b && b <= 122) || (48 <= b && b <= 57) || b == 45 || b == 95
}

} // verus!
