//! Byte-level building blocks for the crate's JSON wire shapes.
//!
//! Token claims and domain-event payloads are framed as JSON objects over
//! UTF-8 bytes. Escaping works on bytes: every byte of a multi-byte UTF-8
//! scalar is at least 0x80 and passes through untouched, so escaping the
//! encoded bytes of a string escapes exactly its `"`, `\` and control
//! characters.

use vstd::prelude::*;

verus! {

pub open spec fn is_digit_byte(b: u8) -> bool {
    48 <= b <= 57
}

/// Lower-case hex digit for a 4-bit value.
pub open spec fn hex_digit_of(v: int) -> u8 {
    if 0 <= v < 10 {
        (48 + v) as u8
    } else if 10 <= v < 16 {
        (97 + (v - 10)) as u8
    } else {
        48u8
    }
}

/// The escaped form of one byte of string content.
pub open spec fn spec_escape_byte(b: u8) -> Seq<u8> {
    if b == 34 {
        seq![92u8, 34u8]
    } else if b == 92 {
        seq![92u8, 92u8]
    } else if b == 10 {
        seq![92u8, 110u8]
    } else if b == 13 {
        seq![92u8, 114u8]
    } else if b == 9 {
        seq![92u8, 116u8]
    } else if b < 32 {
        seq![92u8, 117u8, 48u8, 48u8, hex_digit_of((b >> 4u8) as int), hex_digit_of((b & 15u8) as int)]
    } else {
        seq![b]
    }
}

/// The escaped form of string content.
pub open spec fn spec_escape(s: Seq<u8>) -> Seq<u8>
    decreases s.len(),
{
    if s.len() == 0 {
        Seq::<u8>::empty()
    } else {
        spec_escape_byte(s[0]) + spec_escape(s.skip(1))
    }
}

/// Escaping distributes over concatenation.
pub proof fn lemma_escape_concat(s: Seq<u8>, t: Seq<u8>)
    ensures
        spec_escape(s + t) == spec_escape(s) + spec_escape(t),
    decreases s.len(),
{
    if s.len() == 0 {
        assert(s + t =~= t);
        assert(spec_escape(s) + spec_escape(t) =~= spec_escape(t));
    } else {
        assert((s + t).skip(1) =~= s.skip(1) + t);
        lemma_escape_concat(s.skip(1), t);
        assert((s + t)[0] == s[0]);
        assert(spec_escape(s + t) =~= spec_escape(s) + spec_escape(t));
    }
}

/// Parses string content from the front of `s` up to an unescaped closing
/// quote: the unescaped content and the remainder after the quote.
pub open spec fn spec_parse_string(s: Seq<u8>) -> Option<(Seq<u8>, Seq<u8>)>
    decreases s.len(),
{
    if s.len() == 0 {
        None
    } else if s[0] == 34 {
        Some((Seq::<u8>::empty(), s.skip(1)))
    } else if s[0] == 92 {
        if s.len() < 2 {
            None
        } else if s[1] == 34 || s[1] == 92 {
            match spec_parse_string(s.skip(2)) {
                Some((c, r)) => Some((seq![s[1]] + c, r)),
                None => None,
            }
        } else if s[1] == 110 {
            match spec_parse_string(s.skip(2)) {
                Some((c, r)) => Some((seq![10u8] + c, r)),
                None => None,
            }
        } else if s[1] == 114 {
            match spec_parse_string(s.skip(2)) {
                Some((c, r)) => Some((seq![13u8] + c, r)),
                None => None,
            }
        } else if s[1] == 116 {
            match spec_parse_string(s.skip(2)) {
                Some((c, r)) => Some((seq![9u8] + c, r)),
                None => None,
            }
        } else if s[1] == 117 {
            if s.len() < 6 {
                None
            } else if s[2] == 48 && s[3] == 48 && hex_val_of(s[4]) >= 0 && hex_val_of(s[5]) >= 0 {
                let b = ((hex_val_of(s[4]) * 16) + hex_val_of(s[5])) as u8;
                match spec_parse_string(s.skip(6)) {
                    Some((c, r)) => Some((seq![b] + c, r)),
                    None => None,
                }
            } else {
                None
            }
        } else {
            None
        }
    } else {
        match spec_parse_string(s.skip(1)) {
            Some((c, r)) => Some((seq![s[0]] + c, r)),
            None => None,
        }
    }
}

/// The 4-bit value of a lower-case hex digit byte, or -1.
pub open spec fn hex_val_of(b: u8) -> int {
    if 48 <= b <= 57 {
        b - 48
    } else if 97 <= b <= 102 {
        (b - 97) + 10
    } else {
        -1
    }
}

proof fn lemma_hex_inverse(v: int)
    requires
        0 <= v < 16,
    ensures
        hex_val_of(hex_digit_of(v)) == v,
{
}

/// Parsing string content inverts escaping: the escaped content followed by a
/// closing quote parses back to the content, leaving the remainder.
pub proof fn lemma_parse_escaped(c: Seq<u8>, rest: Seq<u8>)
    ensures
        spec_parse_string(spec_escape(c) + seq![34u8] + rest) == Some((c, rest)),
    decreases c.len(),
{
    if c.len() == 0 {
        let s = spec_escape(c) + seq![34u8] + rest;
        assert(s =~= seq![34u8] + rest);
        assert(s[0] == 34);
        assert(s.skip(1) =~= rest);
    } else {
        let b = c[0];
        let tail = c.skip(1);
        lemma_parse_escaped(tail, rest);
        let s = spec_escape(c) + seq![34u8] + rest;
        let srest = spec_escape(tail) + seq![34u8] + rest;
        assert(spec_escape(c) == spec_escape_byte(b) + spec_escape(tail));
        assert(s =~= spec_escape_byte(b) + srest);
        if b == 34 || b == 92 {
            assert(s[0] == 92 && s[1] == b);
            assert(s.skip(2) =~= srest);
            assert(seq![b] + tail =~= c);
        } else if b == 10 {
            assert(s[0] == 92 && s[1] == 110);
            assert(s.skip(2) =~= srest);
            assert(seq![b] + tail =~= c);
        } else if b == 13 {
            assert(s[0] == 92 && s[1] == 114);
            assert(s.skip(2) =~= srest);
            assert(seq![b] + tail =~= c);
        } else if b == 9 {
            assert(s[0] == 92 && s[1] == 116);
            assert(s.skip(2) =~= srest);
            assert(seq![b] + tail =~= c);
        } else if b < 32 {
            assert(s[0] == 92 && s[1] == 117 && s[2] == 48 && s[3] == 48 && s[4] == hex_digit_of(
                (b >> 4u8) as int,
            ) && s[5] == hex_digit_of((b & 15u8) as int));
            assert((b >> 4u8) < 16 && (b & 15u8) < 16) by (bit_vector);
            lemma_hex_inverse((b >> 4u8) as int);
            lemma_hex_inverse((b & 15u8) as int);
            assert(((b >> 4u8) as int * 16 + (b & 15u8) as int) as u8 == b) by (bit_vector)
                requires
                    (b >> 4u8) < 16 && (b & 15u8) < 16,
            ;
            assert(s.skip(6) =~= srest);
            assert(seq![b] + tail =~= c);
        } else {
            assert(s[0] == b && b != 34 && b != 92);
            assert(s.skip(1) =~= srest);
            assert(seq![b] + tail =~= c);
        }
    }
}

/// Appends the escaped form of `content` to `out`.
pub fn escape_into(out: &mut Vec<u8>, content: &[u8])
    ensures
        final(out)@ == old(out)@ + spec_escape(content@),
{
    let mut i: usize = 0;
    while i < content.len()
        invariant
            i <= content.len(),
            out@ == old(out)@ + spec_escape(content@.take(i as int)),
        decreases content.len() - i,
    {
        let b = content[i];
        if b == 34 {
            out.push(92);
            out.push(34);
        } else if b == 92 {
            out.push(92);
            out.push(92);
        } else if b == 10 {
            out.push(92);
            out.push(110);
        } else if b == 13 {
            out.push(92);
            out.push(114);
        } else if b == 9 {
            out.push(92);
            out.push(116);
        } else if b < 32 {
            out.push(92);
            out.push(117);
            out.push(48);
            out.push(48);
            proof {
                assert((b >> 4u8) < 16 && (b & 15u8) < 16) by (bit_vector);
            }
            out.push(hex_digit(b >> 4u8));
            out.push(hex_digit(b & 15u8));
        } else {
            out.push(b);
        }
        proof {
            let pre = content@.take(i as int);
            lemma_escape_concat(pre, seq![b]);
            assert(pre + seq![b] =~= content@.take(i + 1int));
            assert(spec_escape(seq![b]) =~= spec_escape_byte(b)) by {
                let sb = seq![b];
                assert(sb.len() == 1 && sb[0] == b);
                assert(sb.skip(1) =~= Seq::<u8>::empty());
                assert(spec_escape(Seq::<u8>::empty()) == Seq::<u8>::empty());
                assert(spec_escape(sb) == spec_escape_byte(b) + spec_escape(sb.skip(1)));
            }
            assert(out@ =~= old(out)@ + spec_escape(content@.take(i + 1int)));
        }
        i = i + 1;
    }
    proof {
        assert(content@.take(content@.len() as int) =~= content@);
    }
}

fn hex_digit(v: u8) -> (r: u8)
    requires
        v < 16,
    ensures
        r == hex_digit_of(v as int),
{
    if v < 10 {
        48 + v
    } else {
        97 + (v - 10)
    }
}

/// Parses string content starting at `start`, assuming the opening quote has
/// been consumed; returns the content and the index just past the closing
/// quote.
pub fn parse_string_at(input: &[u8], start: usize) -> (r: Option<(Vec<u8>, usize)>)
    requires
        start <= input.len(),
    ensures
        match r {
            Some((content, end)) => {
                &&& start <= end <= input@.len()
                &&& spec_parse_string(input@.skip(start as int)) == Some(
                    (content@, input@.skip(end as int)),
                )
            },
            None => spec_parse_string(input@.skip(start as int)) is None,
        },
{
    let mut content: Vec<u8> = Vec::new();
    let mut j: usize = start;
    loop
        invariant
            start <= j <= input@.len(),
            match spec_parse_string(input@.skip(j as int)) {
                Some(p) => spec_parse_string(input@.skip(start as int)) == Some(
                    (content@ + p.0, p.1),
                ),
                None => spec_parse_string(input@.skip(start as int)) is None,
            },
        decreases input@.len() - j,
    {
        if j >= input.len() {
            return None;
        }
        let b = input[j];
        let ghost s = input@.skip(j as int);
        proof {
            assert(s[0] == b);
        }
        if b == 34 {
            proof {
                assert(s.skip(1) =~= input@.skip(j + 1int));
                assert(content@ + Seq::<u8>::empty() =~= content@);
            }
            return Some((content, j + 1));
        } else if b == 92 {
            if j + 1 >= input.len() {
                proof {
                    assert(s.len() < 2);
                }
                return None;
            }
            let e = input[j + 1];
            proof {
                assert(s[1] == e);
                assert(s.skip(2) =~= input@.skip(j + 2int));
            }
            if e == 34 || e == 92 {
                let ghost prev = content@;
                content.push(e);
                proof {
                    assert(content@.take(content@.len() - 1) =~= prev);
                    assert(content@ =~= content@.take(content@.len() - 1) + seq![e]);
                    lemma_step(input@, start as int, j as int, j + 2, content@, seq![e]);
                }
                j = j + 2;
            } else if e == 110 {
                let ghost prev = content@;
                content.push(10);
                proof {
                    assert(content@.take(content@.len() - 1) =~= prev);
                    assert(content@ =~= content@.take(content@.len() - 1) + seq![10u8]);
                    lemma_step(input@, start as int, j as int, j + 2, content@, seq![10u8]);
                }
                j = j + 2;
            } else if e == 114 {
                let ghost prev = content@;
                content.push(13);
                proof {
                    assert(content@.take(content@.len() - 1) =~= prev);
                    assert(content@ =~= content@.take(content@.len() - 1) + seq![13u8]);
                    lemma_step(input@, start as int, j as int, j + 2, content@, seq![13u8]);
                }
                j = j + 2;
            } else if e == 116 {
                let ghost prev = content@;
                content.push(9);
                proof {
                    assert(content@.take(content@.len() - 1) =~= prev);
                    assert(content@ =~= content@.take(content@.len() - 1) + seq![9u8]);
                    lemma_step(input@, start as int, j as int, j + 2, content@, seq![9u8]);
                }
                j = j + 2;
            } else if e == 117 {
                if input.len() - j < 6 {
                    proof {
                        assert(s.len() < 6);
                    }
                    return None;
                }
                let h0 = input[j + 2];
                let h1 = input[j + 3];
                let h2 = input[j + 4];
                let h3 = input[j + 5];
                proof {
                    assert(s[2] == h0 && s[3] == h1 && s[4] == h2 && s[5] == h3);
                    assert(s.skip(6) =~= input@.skip(j + 6int));
                }
                let v2 = hex_val(h2);
                let v3 = hex_val(h3);
                if h0 == 48 && h1 == 48 && v2 < 16 && v3 < 16 {
                    let decoded = v2 * 16 + v3;
                    let ghost prev = content@;
                    content.push(decoded);
                    proof {
                        assert(decoded as int == hex_val_of(s[4]) * 16 + hex_val_of(s[5]));
                        assert(content@.take(content@.len() - 1) =~= prev);
                        assert(content@ =~= content@.take(content@.len() - 1) + seq![decoded]);
                        lemma_step(input@, start as int, j as int, j + 6, content@, seq![decoded]);
                    }
                    j = j + 6;
                } else {
                    return None;
                }
            } else {
                return None;
            }
        } else {
            let ghost prev = content@;
            content.push(b);
            proof {
                assert(s.skip(1) =~= input@.skip(j + 1int));
                assert(content@.take(content@.len() - 1) =~= prev);
                assert(content@ =~= content@.take(content@.len() - 1) + seq![b]);
                lemma_step(input@, start as int, j as int, j + 1, content@, seq![b]);
            }
            j = j + 1;
        }
    }
}

/// One step of the string-parsing continuation invariant: after consuming
/// bytes up to `j2` that unescape to `piece`, the overall parse from `start`
/// keeps the accumulated content as a prefix.
proof fn lemma_step(
    input: Seq<u8>,
    start: int,
    j: int,
    j2: int,
    content_now: Seq<u8>,
    piece: Seq<u8>,
)
    requires
        0 <= start <= j <= j2 <= input.len(),
        content_now.len() >= piece.len(),
        match spec_parse_string(input.skip(j)) {
            Some(p) => spec_parse_string(input.skip(start)) == Some(
                (content_now.take(content_now.len() - piece.len() as int) + p.0, p.1),
            ),
            None => spec_parse_string(input.skip(start)) is None,
        },
        content_now =~= content_now.take(content_now.len() - piece.len() as int) + piece,
        spec_parse_string(input.skip(j)) == match spec_parse_string(input.skip(j2)) {
            Some(p3) => Some((piece + p3.0, p3.1)),
            None => None::<(Seq<u8>, Seq<u8>)>,
        },
    ensures
        match spec_parse_string(input.skip(j2)) {
            Some(p) => spec_parse_string(input.skip(start)) == Some((content_now + p.0, p.1)),
            None => spec_parse_string(input.skip(start)) is None,
        },
{
    let prev = content_now.take(content_now.len() - piece.len() as int);
    match spec_parse_string(input.skip(j2)) {
        Some(p) => {
            assert(spec_parse_string(input.skip(j)) == Some((piece + p.0, p.1)));
            assert(spec_parse_string(input.skip(start)) == Some((prev + (piece + p.0), p.1)));
            assert(prev + (piece + p.0) =~= content_now + p.0);
        },
        None => {},
    }
}

fn hex_val(b: u8) -> (r: u8)
    ensures
        hex_val_of(b) >= 0 ==> r == hex_val_of(b),
        hex_val_of(b) < 0 ==> r == 255,
{
    if 48 <= b && b <= 57 {
        b - 48
    } else if 97 <= b && b <= 102 {
        (b - 97) + 10
    } else {
        255
    }
}

/// The decimal digits of a non-negative integer, most significant first.
pub open spec fn spec_dec_digits(m: int) -> Seq<u8>
    decreases m,
{
    if m < 10 {
        seq![(48 + if m >= 0 { m } else { 0 }) as u8]
    } else {
        spec_dec_digits(m / 10) + seq![(48 + (m % 10)) as u8]
    }
}

/// The decimal rendering of an integer in `i64` range.
pub open spec fn spec_i64_bytes(n: int) -> Seq<u8> {
    if n < 0 {
        seq![45u8] + spec_dec_digits(-n)
    } else {
        spec_dec_digits(n)
    }
}

/// Every digit byte of a rendering is a digit.
pub proof fn lemma_dec_digits_are_digits(m: int)
    requires
        m >= 0,
    ensures
        spec_dec_digits(m).len() >= 1,
        forall|i: int|
            0 <= i < spec_dec_digits(m).len() ==> #[trigger] is_digit_byte(spec_dec_digits(m)[i]),
    decreases m,
{
    if m < 10 {
    } else {
        lemma_dec_digits_are_digits(m / 10);
    }
}

/// Appends the decimal rendering of `n` to `out`.
pub fn dec_digits_into(out: &mut Vec<u8>, n: u64)
    ensures
        final(out)@ == old(out)@ + spec_dec_digits(n as int),
    decreases n,
{
    if n < 10 {
        out.push(48 + (n as u8));
        proof {
            assert(old(out)@ + seq![(48 + n as int) as u8] =~= out@);
        }
    } else {
        dec_digits_into(out, n / 10);
        out.push(48 + ((n % 10) as u8));
        proof {
            assert(old(out)@ + spec_dec_digits(n as int) =~= out@);
        }
    }
}

/// Accumulating decimal parse: consumes leading digit bytes into `acc`,
/// stopping at the first non-digit; `None` on `i64` overflow.
pub open spec fn spec_parse_digits_acc(s: Seq<u8>, acc: int) -> Option<(int, Seq<u8>)>
    decreases s.len(),
{
    if s.len() == 0 || !is_digit_byte(s[0]) {
        Some((acc, s))
    } else {
        let a2 = acc * 10 + (s[0] - 48);
        if a2 > i64::MAX {
            None
        } else {
            spec_parse_digits_acc(s.skip(1), a2)
        }
    }
}

/// A signed decimal integer at the front of `s`: at least one digit, optional
/// leading minus, value within `i64`.
pub open spec fn spec_parse_int(s: Seq<u8>) -> Option<(int, Seq<u8>)> {
    if s.len() >= 1 && s[0] == 45 {
        if s.len() >= 2 && is_digit_byte(s[1]) {
            match spec_parse_digits_acc(s.skip(1), 0) {
                Some((v, r)) => if -v >= i64::MIN {
                    Some((-v, r))
                } else {
                    None
                },
                None => None,
            }
        } else {
            None
        }
    } else if s.len() >= 1 && is_digit_byte(s[0]) {
        spec_parse_digits_acc(s, 0)
    } else {
        None
    }
}

pub open spec fn pow10(k: nat) -> int
    decreases k,
{
    if k == 0 {
        1
    } else {
        10 * pow10((k - 1) as nat)
    }
}

proof fn lemma_pow10_pos(k: nat)
    ensures
        pow10(k) >= 1,
    decreases k,
{
    if k > 0 {
        lemma_pow10_pos((k - 1) as nat);
    }
}

/// The value of a digit sequence, most significant first.
pub open spec fn spec_digits_value(d: Seq<u8>) -> int
    decreases d.len(),
{
    if d.len() == 0 {
        0
    } else {
        spec_digits_value(d.take(d.len() - 1)) * 10 + (d.last() - 48)
    }
}

proof fn lemma_digits_value_nonneg(d: Seq<u8>)
    requires
        forall|i: int| 0 <= i < d.len() ==> #[trigger] is_digit_byte(d[i]),
    ensures
        spec_digits_value(d) >= 0,
    decreases d.len(),
{
    if d.len() > 0 {
        let head = d.take(d.len() - 1);
        assert(forall|i: int| 0 <= i < head.len() ==> #[trigger] is_digit_byte(head[i])) by {
            assert(forall|i: int|
                0 <= i < head.len() ==> head[i] == d[i] && #[trigger] is_digit_byte(d[i]));
        }
        lemma_digits_value_nonneg(head);
        assert(is_digit_byte(d[d.len() - 1]));
        assert(spec_digits_value(head) * 10 >= 0) by (nonlinear_arith)
            requires
                spec_digits_value(head) >= 0,
        ;
    }
}

/// Front expansion of the value of a digit sequence.
proof fn lemma_digits_value_front(d: Seq<u8>)
    requires
        d.len() >= 1,
    ensures
        spec_digits_value(d) == (d[0] - 48) * pow10((d.len() - 1) as nat) + spec_digits_value(
            d.skip(1),
        ),
    decreases d.len(),
{
    if d.len() == 1 {
        assert(d.take(0) =~= Seq::<u8>::empty());
        assert(d.skip(1) =~= Seq::<u8>::empty());
        assert(pow10(0nat) == 1);
        assert(spec_digits_value(Seq::<u8>::empty()) == 0);
        assert(spec_digits_value(d) == spec_digits_value(d.take(0)) * 10 + (d.last() - 48));
        assert(d[0] == d.last());
        assert((d[0] - 48) * 1 == d[0] - 48) by (nonlinear_arith);
    } else {
        let head = d.take(d.len() - 1);
        lemma_digits_value_front(head);
        assert(head[0] == d[0]);
        assert(head.skip(1) =~= d.skip(1).take(d.skip(1).len() - 1));
        assert(d.skip(1).last() == d.last());
        let k = (d.len() - 2) as nat;
        assert(spec_digits_value(head) == (d[0] - 48) * pow10(k) + spec_digits_value(
            d.skip(1).take(d.skip(1).len() - 1),
        ));
        assert(((d[0] - 48) * pow10(k) + spec_digits_value(d.skip(1).take(d.skip(1).len() - 1)))
            * 10 == (d[0] - 48) * (10 * pow10(k)) + spec_digits_value(
            d.skip(1).take(d.skip(1).len() - 1),
        ) * 10) by (nonlinear_arith);
        assert(pow10((d.len() - 1) as nat) == 10 * pow10(k));
        assert(spec_digits_value(d) == spec_digits_value(head) * 10 + (d.last() - 48));
        assert(spec_digits_value(d.skip(1)) == spec_digits_value(
            d.skip(1).take(d.skip(1).len() - 1),
        ) * 10 + (d.skip(1).last() - 48));
    }
}

/// Parsing digits inverts rendering, for any accumulator: the parse of the
/// rendering of `d` followed by a non-digit remainder yields the combined
/// value.
proof fn lemma_parse_digits_exact(d: Seq<u8>, rest: Seq<u8>, acc: int)
    requires
        forall|i: int| 0 <= i < d.len() ==> #[trigger] is_digit_byte(d[i]),
        rest.len() == 0 || !is_digit_byte(rest[0]),
        acc >= 0,
        acc * pow10(d.len() as nat) + spec_digits_value(d) <= i64::MAX,
    ensures
        spec_parse_digits_acc(d + rest, acc) == Some(
            (acc * pow10(d.len() as nat) + spec_digits_value(d), rest),
        ),
    decreases d.len(),
{
    lemma_pow10_pos(d.len() as nat);
    lemma_digits_value_nonneg(d);
    if d.len() == 0 {
        assert(d + rest =~= rest);
        assert(acc * 1 == acc) by (nonlinear_arith);
    } else {
        let s = d + rest;
        assert(s[0] == d[0] && is_digit_byte(s[0]));
        let a2 = acc * 10 + (d[0] - 48);
        lemma_digits_value_front(d);
        lemma_digits_value_nonneg(d.skip(1));
        lemma_pow10_pos((d.len() - 1) as nat);
        let k = (d.len() - 1) as nat;
        assert(acc * pow10(d.len() as nat) == (acc * 10) * pow10(k)) by (nonlinear_arith)
            requires
                pow10(d.len() as nat) == 10 * pow10(k),
        ;
        assert(a2 * pow10(k) == (acc * 10) * pow10(k) + (d[0] - 48) * pow10(k))
            by (nonlinear_arith)
            requires
                a2 == acc * 10 + (d[0] - 48),
        ;
        assert(a2 * pow10(k) + spec_digits_value(d.skip(1)) == acc * pow10(d.len() as nat)
            + spec_digits_value(d));
        assert(a2 <= a2 * pow10(k)) by (nonlinear_arith)
            requires
                a2 >= 0,
                pow10(k) >= 1,
        ;
        assert(a2 <= i64::MAX);
        assert(s.skip(1) =~= d.skip(1) + rest);
        lemma_parse_digits_exact(d.skip(1), rest, a2);
    }
}

/// Parsing a rendered non-negative integer yields it back.
pub proof fn lemma_parse_int_of_rendered(n: int, rest: Seq<u8>)
    requires
        0 <= n <= i64::MAX,
        rest.len() == 0 || !is_digit_byte(rest[0]),
    ensures
        spec_parse_int(spec_dec_digits(n) + rest) == Some((n, rest)),
{
    lemma_dec_digits_are_digits(n);
    lemma_dec_value_of_digits(n);
    lemma_parse_digits_exact(spec_dec_digits(n), rest, 0);
    let s = spec_dec_digits(n) + rest;
    assert(s[0] == spec_dec_digits(n)[0]);
    assert(is_digit_byte(s[0]));
    assert(s[0] != 45);
}

/// The value of the rendering of `m` is `m`.
proof fn lemma_dec_value_of_digits(m: int)
    requires
        m >= 0,
    ensures
        spec_digits_value(spec_dec_digits(m)) == m,
    decreases m,
{
    if m < 10 {
        let d = spec_dec_digits(m);
        assert(d.len() == 1 && d.last() == (48 + m) as u8);
        assert(d.take(0) =~= Seq::<u8>::empty());
        assert(spec_digits_value(Seq::<u8>::empty()) == 0);
        assert(spec_digits_value(d) == 0 * 10 + ((48 + m) as u8 - 48));
    } else {
        lemma_dec_value_of_digits(m / 10);
        let d = spec_dec_digits(m);
        assert(d.take(d.len() - 1) =~= spec_dec_digits(m / 10));
        assert(d.last() == (48 + (m % 10)) as u8);
        vstd::arithmetic::div_mod::lemma_fundamental_div_mod(m, 10);
        assert(spec_digits_value(d) == (m / 10) * 10 + (m % 10));
    }
}

/// Parses a signed decimal integer starting at `start`; returns the value and
/// the index of the first byte past the digits.
pub fn parse_int_at(input: &[u8], start: usize) -> (r: Option<(i64, usize)>)
    requires
        start <= input.len(),
    ensures
        match r {
            Some((v, end)) => {
                &&& start <= end <= input@.len()
                &&& spec_parse_int(input@.skip(start as int)) == Some(
                    (v as int, input@.skip(end as int)),
                )
            },
            None => spec_parse_int(input@.skip(start as int)) is None,
        },
{
    let ghost s0 = input@.skip(start as int);
    if start >= input.len() {
        return None;
    }
    let negative = input[start] == 45;
    let dstart = if negative {
        start + 1
    } else {
        start
    };
    if dstart >= input.len() || !(48 <= input[dstart] && input[dstart] <= 57) {
        proof {
            if negative {
                assert(s0[0] == 45);
                if dstart < input.len() {
                    assert(s0[1] == input@[dstart as int]);
                }
            }
        }
        return None;
    }
    proof {
        assert(s0[0] == input@[start as int]);
        if negative {
            assert(s0[1] == input@[dstart as int]);
        }
    }
    let mut acc: i64 = 0;
    let mut j: usize = dstart;
    loop
        invariant
            dstart <= j <= input@.len(),
            start <= dstart <= input@.len(),
            dstart < input@.len(),
            0 <= acc,
            negative ==> s0.len() >= 2 && s0[0] == 45 && is_digit_byte(s0[1]) && dstart == start
                + 1,
            !negative ==> dstart == start && s0.len() >= 1 && is_digit_byte(s0[0]) && s0[0] != 45,
            s0 == input@.skip(start as int),
            spec_parse_digits_acc(input@.skip(dstart as int), 0) == spec_parse_digits_acc(
                input@.skip(j as int),
                acc as int,
            ),
        decreases input@.len() - j,
    {
        let ghost sj = input@.skip(j as int);
        let done = if j >= input.len() {
            proof {
                assert(sj.len() == 0);
            }
            true
        } else {
            let b = input[j];
            proof {
                assert(sj[0] == b);
            }
            if !(48 <= b && b <= 57) {
                true
            } else {
                if acc > (i64::MAX - ((b - 48) as i64)) / 10 {
                    proof {
                        assert(acc as int * 10 + (b - 48) > i64::MAX) by (nonlinear_arith)
                            requires
                                acc as int > (i64::MAX - ((b - 48) as int)) / 10,
                                0 <= acc,
                                48 <= b <= 57,
                        ;
                        assert(spec_parse_digits_acc(sj, acc as int) is None);
                        if negative {
                            assert(s0.skip(1) =~= input@.skip(dstart as int));
                        }
                    }
                    return None;
                }
                proof {
                    assert(acc as int * 10 + (b - 48) <= i64::MAX) by (nonlinear_arith)
                        requires
                            acc as int <= (i64::MAX - ((b - 48) as int)) / 10,
                            0 <= acc,
                            48 <= b <= 57,
                    ;
                    assert(sj.skip(1) =~= input@.skip(j + 1int));
                }
                acc = acc * 10 + ((b - 48) as i64);
                j = j + 1;
                false
            }
        };
        if done {
            proof {
                assert(sj.len() == 0 || !is_digit_byte(sj[0]));
                assert(spec_parse_digits_acc(sj, acc as int) == Some((acc as int, sj)));
                if negative {
                    assert(s0.skip(1) =~= input@.skip(dstart as int));
                    assert(spec_parse_int(s0) == Some((-(acc as int), input@.skip(j as int))));
                }
            }
            if negative {
                return Some((-acc, j));
            } else {
                return Some((acc, j));
            }
        }
    }
}

/// Appends the decimal rendering of a non-negative `i64` to `out`.
pub fn i64_into(out: &mut Vec<u8>, n: i64)
    requires
        n >= 0,
    ensures
        final(out)@ == old(out)@ + spec_i64_bytes(n as int),
{
    dec_digits_into(out, n as u64);
}

/// Shifting the viewpoint: `pat` occurs at `e` in `s` exactly when it occurs
/// at the front of `s.skip(e)`.
pub proof fn lemma_has_at_skip(s: Seq<u8>, e: int, pat: Seq<u8>)
    requires
        0 <= e <= s.len(),
    ensures
        spec_has_at(s.skip(e), 0, pat) == spec_has_at(s, e, pat),
{
    if e + pat.len() <= s.len() {
        assert(s.skip(e).subrange(0, pat.len() as int) =~= s.subrange(e, e + pat.len()));
    }
}

/// Whether `pat` occurs in `s` at offset `at`.
pub open spec fn spec_has_at(s: Seq<u8>, at: int, pat: Seq<u8>) -> bool {
    &&& 0 <= at
    &&& at + pat.len() <= s.len()
    &&& s.subrange(at, at + pat.len()) == pat
}

/// Checks that `pat` occurs in `input` at offset `at`.
pub fn has_at(input: &[u8], at: usize, pat: &[u8]) -> (r: bool)
    ensures
        r == spec_has_at(input@, at as int, pat@),
{
    if at > input.len() || pat.len() > input.len() - at {
        proof {
            assert(!spec_has_at(input@, at as int, pat@));
        }
        return false;
    }
    let mut i: usize = 0;
    while i < pat.len()
        invariant
            i <= pat@.len(),
            at + pat@.len() <= input@.len(),
            input@.len() <= usize::MAX,
            forall|k: int| 0 <= k < i ==> input@[at + k] == pat@[k],
        decreases pat.len() - i,
    {
        proof {
            assert(at + i < input@.len());
        }
        if input[at + i] != pat[i] {
            proof {
                assert(input@.subrange(at as int, at + pat@.len())[i as int] == input@[at + i]);
            }
            return false;
        }
        i = i + 1;
    }
    proof {
        assert(input@.subrange(at as int, at + pat@.len()) =~= pat@);
    }
    true
}


/// The opening of the claims object: `{"sub":"`.
pub open spec fn claims_obj_sub() -> Seq<u8> {
    seq![123u8, 34u8, 115u8, 117u8, 98u8, 34u8, 58u8, 34u8]
}

/// The token-id key between claims fields: `,"jti":"`.
pub open spec fn claims_obj_jti() -> Seq<u8> {
    seq![44u8, 34u8, 106u8, 116u8, 105u8, 34u8, 58u8, 34u8]
}

/// The issued-at key: `,"iat":`.
pub open spec fn claims_obj_iat() -> Seq<u8> {
    seq![44u8, 34u8, 105u8, 97u8, 116u8, 34u8, 58u8]
}

/// The expiry key: `,"exp":`.
pub open spec fn claims_obj_exp() -> Seq<u8> {
    seq![44u8, 34u8, 101u8, 120u8, 112u8, 34u8, 58u8]
}

/// The closing brace of the claims object.
pub open spec fn claims_obj_end() -> Seq<u8> {
    seq![125u8]
}

pub fn push_claims_sub(out: &mut Vec<u8>)
    ensures
        final(out)@ == old(out)@ + claims_obj_sub(),
{
    out.push(123);
    out.push(34);
    out.push(115);
    out.push(117);
    out.push(98);
    out.push(34);
    out.push(58);
    out.push(34);
    proof {
        assert(out@ =~= old(out)@ + claims_obj_sub());
    }
}

pub fn push_claims_jti(out: &mut Vec<u8>)
    ensures
        final(out)@ == old(out)@ + claims_obj_jti(),
{
    out.push(44);
    out.push(34);
    out.push(106);
    out.push(116);
    out.push(105);
    out.push(34);
    out.push(58);
    out.push(34);
    proof {
        assert(out@ =~= old(out)@ + claims_obj_jti());
    }
}

pub fn push_claims_iat(out: &mut Vec<u8>)
    ensures
        final(out)@ == old(out)@ + claims_obj_iat(),
{
    out.push(44);
    out.push(34);
    out.push(105);
    out.push(97);
    out.push(116);
    out.push(34);
    out.push(58);
    proof {
        assert(out@ =~= old(out)@ + claims_obj_iat());
    }
}

pub fn push_claims_exp(out: &mut Vec<u8>)
    ensures
        final(out)@ == old(out)@ + claims_obj_exp(),
{
    out.push(44);
    out.push(34);
    out.push(101);
    out.push(120);
    out.push(112);
    out.push(34);
    out.push(58);
    proof {
        assert(out@ =~= old(out)@ + claims_obj_exp());
    }
}

} // verus!
