//! The token codec: stateless issuance and verification of signed access
//! tokens.
//!
//! A token is `base64url(header) . base64url(claims) . signature`, where the
//! header is the fixed HS256 object, the claims are the crate's own JSON
//! shape (subject, token id, issued-at, expiry), and the signature is
//! HMAC-SHA256 over the first two segments under the deployment's shared
//! secret. The framing — JSON, base64url and the dot layout — is built and
//! parsed by verified code; only the HMAC itself is an outside call.

use vstd::prelude::*;
use vstd::string::{StrSliceExecFns, StringExecFns, StringSliceAdditionalSpecFns};
use vstd::utf8::{decode_utf8, encode_utf8, valid_utf8};

use crate::b64::{
    b64_decode, b64_encode, is_b64url_byte, lemma_b64_encode_bytes_in_alphabet,
    lemma_b64_round_trip, spec_b64_decode, spec_b64_encode,
};
use crate::errors::AppError;
use crate::ids;
use crate::json::{
    claims_obj_end, claims_obj_exp, claims_obj_iat, claims_obj_jti, claims_obj_sub, escape_into,
    has_at, i64_into, lemma_parse_escaped, lemma_parse_int_of_rendered, parse_int_at,
    parse_string_at, push_claims_exp, push_claims_iat, push_claims_jti, push_claims_sub,
    spec_escape, spec_has_at, spec_i64_bytes, spec_parse_int, spec_parse_string,
};
use crate::strutil::{
    eq_bytes, find_first_byte, find_last_byte, lemma_ascii_bytes_utf8, string_from_utf8, subvec,
};

verus! {

/// The claims carried by an access token: subject (user id), unique token id,
/// issued-at and expiry as Unix seconds. The invariant `exp > iat` holds of
/// every token this codec issues with a positive lifetime.
#[derive(Debug)]
pub struct Claims {
    pub sub: String,
    pub jti: String,
    pub iat: i64,
    pub exp: i64,
}

impl Clone for Claims {
    fn clone(&self) -> (r: Self)
        ensures
            r.sub@ == self.sub@,
            r.jti@ == self.jti@,
            r.iat == self.iat,
            r.exp == self.exp,
    {
        Claims {
            sub: self.sub.clone(),
            jti: self.jti.clone(),
            iat: self.iat,
            exp: self.exp,
        }
    }
}

/// The fixed header object of every token this codec signs.
pub open spec fn header_json() -> Seq<u8> {
    seq![
        123u8, 34u8, 97u8, 108u8, 103u8, 34u8, 58u8, 34u8, 72u8, 83u8, 50u8, 53u8, 54u8, 34u8,
        44u8, 34u8, 116u8, 121u8, 112u8, 34u8, 58u8, 34u8, 74u8, 87u8, 84u8, 34u8, 125u8,
    ]
}

fn header_json_vec() -> (r: Vec<u8>)
    ensures
        r@ == header_json(),
{
    let mut out: Vec<u8> = Vec::new();
    out.push(123);
    out.push(34);
    out.push(97);
    out.push(108);
    out.push(103);
    out.push(34);
    out.push(58);
    out.push(34);
    out.push(72);
    out.push(83);
    out.push(50);
    out.push(53);
    out.push(54);
    out.push(34);
    out.push(44);
    out.push(34);
    out.push(116);
    out.push(121);
    out.push(112);
    out.push(34);
    out.push(58);
    out.push(34);
    out.push(74);
    out.push(87);
    out.push(84);
    out.push(34);
    out.push(125);
    proof {
        assert(out@ =~= header_json());
    }
    out
}

/// The claims object of a token: subject and token id as escaped JSON
/// strings, issued-at and expiry as decimal integers.
pub open spec fn spec_claims_json(sub_b: Seq<u8>, jti_b: Seq<u8>, iat: int, exp: int) -> Seq<u8> {
    claims_obj_sub() + spec_escape(sub_b) + seq![34u8] + claims_obj_jti() + spec_escape(jti_b)
        + seq![34u8] + claims_obj_iat() + spec_i64_bytes(iat) + claims_obj_exp() + spec_i64_bytes(
        exp,
    ) + claims_obj_end()
}

/// Builds the claims object.
pub fn claims_json(sub: &[u8], jti: &[u8], iat: i64, exp: i64) -> (r: Vec<u8>)
    requires
        iat >= 0,
        exp >= 0,
    ensures
        r@ == spec_claims_json(sub@, jti@, iat as int, exp as int),
{
    let mut out: Vec<u8> = Vec::new();
    push_claims_sub(&mut out);
    escape_into(&mut out, sub);
    out.push(34);
    push_claims_jti(&mut out);
    escape_into(&mut out, jti);
    out.push(34);
    push_claims_iat(&mut out);
    i64_into(&mut out, iat);
    push_claims_exp(&mut out);
    i64_into(&mut out, exp);
    out.push(125);
    proof {
        assert(out@ =~= spec_claims_json(sub@, jti@, iat as int, exp as int));
    }
    out
}

/// Parses the claims object back; `None` where the bytes are not exactly the
/// shape the builder produces (with any escaped string contents and any
/// in-range integers).
pub open spec fn spec_parse_claims(p: Seq<u8>) -> Option<(Seq<u8>, Seq<u8>, int, int)> {
    if !spec_has_at(p, 0, claims_obj_sub()) {
        None
    } else {
        match spec_parse_string(p.skip(8)) {
            None => None,
            Some((sub_b, r1)) => if !spec_has_at(r1, 0, claims_obj_jti()) {
                None
            } else {
                match spec_parse_string(r1.skip(8)) {
                    None => None,
                    Some((jti_b, r2)) => if !spec_has_at(r2, 0, claims_obj_iat()) {
                        None
                    } else {
                        match spec_parse_int(r2.skip(7)) {
                            None => None,
                            Some((iat, r3)) => if !spec_has_at(r3, 0, claims_obj_exp()) {
                                None
                            } else {
                                match spec_parse_int(r3.skip(7)) {
                                    None => None,
                                    Some((exp, r4)) => if r4 == claims_obj_end() {
                                        Some((sub_b, jti_b, iat, exp))
                                    } else {
                                        None
                                    },
                                }
                            },
                        }
                    },
                }
            },
        }
    }
}

/// Parses the claims object.
pub fn parse_claims(p: &[u8]) -> (r: Option<(Vec<u8>, Vec<u8>, i64, i64)>)
    ensures
        match r {
            Some((sub_v, jti_v, iat, exp)) => spec_parse_claims(p@) == Some(
                (sub_v@, jti_v@, iat as int, exp as int),
            ),
            None => spec_parse_claims(p@) is None,
        },
{
    let lit_sub = {
        let mut v: Vec<u8> = Vec::new();
        push_claims_sub(&mut v);
        v
    };
    let lit_jti = {
        let mut v: Vec<u8> = Vec::new();
        push_claims_jti(&mut v);
        v
    };
    let lit_iat = {
        let mut v: Vec<u8> = Vec::new();
        push_claims_iat(&mut v);
        v
    };
    let lit_exp = {
        let mut v: Vec<u8> = Vec::new();
        push_claims_exp(&mut v);
        v
    };
    let n = p.len();
    if !has_at(p, 0, lit_sub.as_slice()) {
        proof {
            assert(p@.skip(0) =~= p@);
        }
        return None;
    }
    proof {
        assert(p@.skip(0) =~= p@);
    }
    let r1 = parse_string_at(p, 8);
    match r1 {
        None => {
            proof {
                assert(p@.skip(8) =~= p@.skip(0).skip(8));
            }
            None
        },
        Some((sub_v, e1)) => {
            proof {
                assert(p@.skip(8) =~= p@.skip(0).skip(8));
            }
            proof {
                crate::json::lemma_has_at_skip(p@, e1 as int, claims_obj_jti());
            }
            if !has_at(p, e1, lit_jti.as_slice()) {
                return None;
            }
            proof {
                assert(p@.skip(e1 as int).skip(8) =~= p@.skip(e1 + 8int));
            }
            let r2 = parse_string_at(p, e1 + 8);
            match r2 {
                None => None,
                Some((jti_v, e2)) => {
                    proof {
                        crate::json::lemma_has_at_skip(p@, e2 as int, claims_obj_iat());
                    }
                    if !has_at(p, e2, lit_iat.as_slice()) {
                        return None;
                    }
                    proof {
                        assert(p@.skip(e2 as int).skip(7) =~= p@.skip(e2 + 7int));
                    }
                    let r3 = parse_int_at(p, e2 + 7);
                    match r3 {
                        None => None,
                        Some((iat, e3)) => {
                            proof {
                                crate::json::lemma_has_at_skip(p@, e3 as int, claims_obj_exp());
                            }
                            if !has_at(p, e3, lit_exp.as_slice()) {
                                return None;
                            }
                            proof {
                                assert(p@.skip(e3 as int).skip(7) =~= p@.skip(e3 + 7int));
                            }
                            let r4 = parse_int_at(p, e3 + 7);
                            match r4 {
                                None => None,
                                Some((exp, e4)) => {
                                    let tail_ok = n - e4 == 1 && p[e4] == 125;
                                    proof {
                                        let r4s = p@.skip(e4 as int);
                                        assert(claims_obj_end().len() == 1 && claims_obj_end()[0]
                                            == 125);
                                        if e4 < p@.len() {
                                            assert(r4s[0] == p@[e4 as int]);
                                        }
                                        if tail_ok {
                                            assert(r4s =~= claims_obj_end());
                                        } else {
                                            if r4s.len() == 1 {
                                                assert(p@[e4 as int] != 125);
                                                assert(r4s[0] != claims_obj_end()[0]);
                                            } else {
                                                assert(r4s.len() != claims_obj_end().len());
                                            }
                                            assert(r4s != claims_obj_end());
                                        }
                                    }
                                    if tail_ok {
                                        Some((sub_v, jti_v, iat, exp))
                                    } else {
                                        None
                                    }
                                },
                            }
                        },
                    }
                },
            }
        },
    }
}

/// Parsing the claims object inverts building it.
#[verifier::rlimit(50)]
pub proof fn lemma_claims_round_trip(sub_b: Seq<u8>, jti_b: Seq<u8>, iat: int, exp: int)
    requires
        0 <= iat <= i64::MAX,
        0 <= exp <= i64::MAX,
    ensures
        spec_parse_claims(spec_claims_json(sub_b, jti_b, iat, exp)) == Some(
            (sub_b, jti_b, iat, exp),
        ),
{
    let p = spec_claims_json(sub_b, jti_b, iat, exp);
    let r1s = claims_obj_jti() + spec_escape(jti_b) + seq![34u8] + claims_obj_iat()
        + spec_i64_bytes(iat) + claims_obj_exp() + spec_i64_bytes(exp) + claims_obj_end();
    let r2s = claims_obj_iat() + spec_i64_bytes(iat) + claims_obj_exp() + spec_i64_bytes(exp)
        + claims_obj_end();
    let r3s = claims_obj_exp() + spec_i64_bytes(exp) + claims_obj_end();
    assert(p.subrange(0, 8) =~= claims_obj_sub());
    assert(spec_has_at(p, 0, claims_obj_sub()));
    assert(p.skip(8) =~= spec_escape(sub_b) + seq![34u8] + r1s);
    lemma_parse_escaped(sub_b, r1s);
    assert(spec_parse_string(p.skip(8)) == Some((sub_b, r1s)));
    assert(r1s.subrange(0, 8) =~= claims_obj_jti());
    assert(spec_has_at(r1s, 0, claims_obj_jti()));
    assert(r1s.skip(8) =~= spec_escape(jti_b) + seq![34u8] + r2s);
    lemma_parse_escaped(jti_b, r2s);
    assert(spec_parse_string(r1s.skip(8)) == Some((jti_b, r2s)));
    assert(r2s.subrange(0, 7) =~= claims_obj_iat());
    assert(spec_has_at(r2s, 0, claims_obj_iat()));
    assert(r2s.skip(7) =~= spec_i64_bytes(iat) + r3s);
    assert(r3s[0] == 44);
    lemma_parse_int_of_rendered(iat, r3s);
    assert(spec_parse_int(r2s.skip(7)) == Some((iat, r3s)));
    assert(r3s.subrange(0, 7) =~= claims_obj_exp());
    assert(spec_has_at(r3s, 0, claims_obj_exp()));
    assert(r3s.skip(7) =~= spec_i64_bytes(exp) + claims_obj_end());
    assert(claims_obj_end()[0] == 125);
    lemma_parse_int_of_rendered(exp, claims_obj_end());
    assert(spec_parse_int(r3s.skip(7)) == Some((exp, claims_obj_end())));
}

/// The HMAC-SHA256 signature of a message under a secret, in unpadded
/// URL-safe base64: a function of the secret and the message alone.
pub uninterp spec fn hs256_sig_of(secret: Seq<u8>, message: Seq<u8>) -> Seq<u8>;

/// Relies on `jsonwebtoken::crypto::sign` with `Algorithm::HS256`: HMAC-SHA256
/// over the message under the secret, base64url-encoded without padding — a
/// function of the two arguments alone, 43 bytes of the base64url alphabet,
/// and it does not fail for this algorithm.
#[verifier::external_body]
fn sign_hs256(secret: &[u8], message: &[u8]) -> (r: Vec<u8>)
    ensures
        r@ == hs256_sig_of(secret@, message@),
        r@.len() == 43,
        forall|i: int| 0 <= i < r@.len() ==> is_b64url_byte(#[trigger] r@[i]),
{
    let key = jsonwebtoken::EncodingKey::from_secret(secret);
    match jsonwebtoken::crypto::sign(message, &key, jsonwebtoken::Algorithm::HS256) {
        Ok(s) => s.into_bytes(),
        Err(_) => Vec::new(),
    }
}

/// Relies on `jsonwebtoken::crypto::verify` with `Algorithm::HS256`: it
/// re-signs the message and compares the given signature text with the
/// computed one byte for byte (in constant time), so it returns exactly
/// whether the signature bytes equal the computed signature.
#[verifier::external_body]
fn verify_hs256(signature: &str, message: &[u8], secret: &[u8]) -> (r: bool)
    ensures
        r == (signature.spec_bytes() == hs256_sig_of(secret@, message@)),
{
    let key = jsonwebtoken::DecodingKey::from_secret(secret);
    jsonwebtoken::crypto::verify(signature, message, &key, jsonwebtoken::Algorithm::HS256)
        .unwrap_or(false)
}

/// The signing input of a token: encoded header, dot, encoded claims.
pub open spec fn spec_signing_input(sub_b: Seq<u8>, jti_b: Seq<u8>, iat: int, exp: int) -> Seq<
    u8,
> {
    spec_b64_encode(header_json()) + seq![46u8] + spec_b64_encode(
        spec_claims_json(sub_b, jti_b, iat, exp),
    )
}

/// The full token: signing input, dot, signature.
pub open spec fn spec_token_bytes(
    secret: Seq<u8>,
    sub_b: Seq<u8>,
    jti_b: Seq<u8>,
    iat: int,
    exp: int,
) -> Seq<u8> {
    spec_signing_input(sub_b, jti_b, iat, exp) + seq![46u8] + hs256_sig_of(
        secret,
        spec_signing_input(sub_b, jti_b, iat, exp),
    )
}

/// The position of the first dot byte, if any.
pub open spec fn spec_first_dot(s: Seq<u8>) -> Option<int>
    decreases s.len(),
{
    if s.len() == 0 {
        None
    } else if s[0] == 46 {
        Some(0)
    } else {
        match spec_first_dot(s.skip(1)) {
            Some(i) => Some(i + 1),
            None => None,
        }
    }
}

/// The position of the last dot byte, if any.
pub open spec fn spec_last_dot(s: Seq<u8>) -> Option<int>
    decreases s.len(),
{
    if s.len() == 0 {
        None
    } else if s.last() == 46 {
        Some(s.len() - 1)
    } else {
        spec_last_dot(s.take(s.len() - 1))
    }
}

/// Characterisation of the first dot position.
pub proof fn lemma_first_dot_char(s: Seq<u8>)
    ensures
        match spec_first_dot(s) {
            Some(i) => 0 <= i < s.len() && s[i] == 46 && forall|k: int| 0 <= k < i ==> s[k] != 46,
            None => forall|k: int| 0 <= k < s.len() ==> s[k] != 46,
        },
    decreases s.len(),
{
    if s.len() == 0 {
    } else if s[0] == 46 {
    } else {
        lemma_first_dot_char(s.skip(1));
        match spec_first_dot(s.skip(1)) {
            Some(i) => {
                assert(forall|k: int| 0 <= k < i ==> s.skip(1)[k] != 46);
                assert(forall|k: int| 1 <= k < i + 1 ==> s[k] == s.skip(1)[k - 1]);
            },
            None => {
                assert(forall|k: int| 1 <= k < s.len() ==> s[k] == s.skip(1)[k - 1]);
            },
        }
    }
}

/// Characterisation of the last dot position.
pub proof fn lemma_last_dot_char(s: Seq<u8>)
    ensures
        match spec_last_dot(s) {
            Some(i) => 0 <= i < s.len() && s[i] == 46 && forall|k: int| i < k < s.len() ==> s[k]
                != 46,
            None => forall|k: int| 0 <= k < s.len() ==> s[k] != 46,
        },
    decreases s.len(),
{
    if s.len() == 0 {
    } else if s.last() == 46 {
    } else {
        lemma_last_dot_char(s.take(s.len() - 1));
        assert(forall|k: int|
            0 <= k < s.len() - 1 ==> s[k] == s.take(s.len() - 1)[k]);
    }
}

/// The parts a token decomposes into when its framing and signature are
/// valid: subject bytes, token-id bytes, issued-at, expiry.
pub open spec fn spec_token_parts(secret: Seq<u8>, tb: Seq<u8>) -> Option<
    (Seq<u8>, Seq<u8>, int, int),
> {
    match spec_last_dot(tb) {
        None => None,
        Some(d) => {
            let msg = tb.subrange(0, d);
            let sig = tb.subrange(d + 1, tb.len() as int);
            if sig.len() == 0 || !(forall|i: int|
                0 <= i < sig.len() ==> is_b64url_byte(#[trigger] sig[i])) {
                None
            } else if sig != hs256_sig_of(secret, msg) {
                None
            } else {
                match spec_first_dot(msg) {
                    None => None,
                    Some(d2) => {
                        if msg.subrange(0, d2) != spec_b64_encode(header_json()) {
                            None
                        } else {
                            match spec_b64_decode(msg.subrange(d2 + 1, msg.len() as int)) {
                                None => None,
                                Some(payload) => spec_parse_claims(payload),
                            }
                        }
                    },
                }
            }
        },
    }
}

/// Decomposing a freshly framed token gives back its parts: the round trip of
/// the whole codec. The signature facts are those the signing call
/// establishes.
pub proof fn lemma_token_round_trip(
    secret: Seq<u8>,
    sub_b: Seq<u8>,
    jti_b: Seq<u8>,
    iat: int,
    exp: int,
)
    requires
        0 <= iat <= i64::MAX,
        0 <= exp <= i64::MAX,
        hs256_sig_of(secret, spec_signing_input(sub_b, jti_b, iat, exp)).len() > 0,
        forall|i: int|
            0 <= i < hs256_sig_of(secret, spec_signing_input(sub_b, jti_b, iat, exp)).len()
                ==> is_b64url_byte(
                #[trigger] hs256_sig_of(secret, spec_signing_input(sub_b, jti_b, iat, exp))[i],
            ),
    ensures
        spec_token_parts(secret, spec_token_bytes(secret, sub_b, jti_b, iat, exp)) == Some(
            (sub_b, jti_b, iat, exp),
        ),
{
    let hb = spec_b64_encode(header_json());
    let cj = spec_claims_json(sub_b, jti_b, iat, exp);
    let cb = spec_b64_encode(cj);
    let msg = spec_signing_input(sub_b, jti_b, iat, exp);
    let sig = hs256_sig_of(secret, msg);
    let tb = spec_token_bytes(secret, sub_b, jti_b, iat, exp);
    lemma_b64_encode_bytes_in_alphabet(header_json());
    lemma_b64_encode_bytes_in_alphabet(cj);
    assert(msg =~= hb + seq![46u8] + cb);
    assert(tb =~= msg + seq![46u8] + sig);
    // the last dot sits between message and signature
    assert(tb[msg.len() as int] == 46);
    assert forall|k: int| msg.len() < k < tb.len() implies tb[k] != 46 by {
        assert(tb[k] == sig[k - msg.len() - 1]);
        assert(is_b64url_byte(sig[k - msg.len() - 1]));
    }
    lemma_last_dot_char(tb);
    let d = spec_last_dot(tb);
    assert(d is Some) by {
        if d is None {
            assert(tb[msg.len() as int] != 46);
        }
    }
    let di = d->0;
    assert(di == msg.len()) by {
        if di < msg.len() {
            assert(tb[msg.len() as int] != 46);
        }
        if di > msg.len() {
            assert(tb[di] != 46);
        }
    }
    assert(tb.subrange(0, di) =~= msg);
    assert(tb.subrange(di + 1, tb.len() as int) =~= sig);
    // the first dot of the message sits between header and claims
    assert(msg[hb.len() as int] == 46);
    assert forall|k: int| 0 <= k < hb.len() implies msg[k] != 46 by {
        assert(msg[k] == hb[k]);
        assert(is_b64url_byte(hb[k]));
    }
    lemma_first_dot_char(msg);
    let d2 = spec_first_dot(msg);
    assert(d2 is Some) by {
        if d2 is None {
            assert(msg[hb.len() as int] != 46);
        }
    }
    let d2i = d2->0;
    assert(d2i == hb.len()) by {
        if d2i < hb.len() {
            assert(msg[d2i] != 46);
        }
        if d2i > hb.len() {
            assert(msg[hb.len() as int] != 46);
        }
    }
    assert(msg.subrange(0, d2i) =~= hb);
    assert(msg.subrange(d2i + 1, msg.len() as int) =~= cb);
    lemma_b64_round_trip(cj);
    lemma_claims_round_trip(sub_b, jti_b, iat, exp);
}

/// A token `t` issued for subject bytes `sub_b` with the given token-id
/// bytes and validity window, together with the facts the signing call
/// establishes about the signature segment.
pub open spec fn spec_issued_with(
    secret: Seq<u8>,
    sub_b: Seq<u8>,
    jti_b: Seq<u8>,
    t: Seq<char>,
    iat: int,
    exp: int,
) -> bool {
    let msg = spec_signing_input(sub_b, jti_b, iat, exp);
    &&& valid_utf8(jti_b)
    &&& encode_utf8(t) == spec_token_bytes(secret, sub_b, jti_b, iat, exp)
    &&& hs256_sig_of(secret, msg).len() > 0
    &&& forall|i: int|
        0 <= i < hs256_sig_of(secret, msg).len() ==> is_b64url_byte(
            #[trigger] hs256_sig_of(secret, msg)[i],
        )
}

/// A token issued for `sub_b` with some token id and the given window.
pub open spec fn spec_issued_token(
    secret: Seq<u8>,
    sub_b: Seq<u8>,
    t: Seq<char>,
    iat: int,
    exp: int,
) -> bool {
    exists|jti_b: Seq<u8>| spec_issued_with(secret, sub_b, jti_b, t, iat, exp)
}

/// An issued token decomposes back to exactly the claims it was issued
/// with: its expiry stands `exp - iat` seconds after its issue time, the
/// decoder accepts its framing and signature, and so decoding it while
/// `now <= exp` succeeds with those claims while decoding after the expiry
/// fails with the expiry error (see `decode_token`).
pub proof fn lemma_issued_token_decodes(
    secret: Seq<u8>,
    sub_b: Seq<u8>,
    t: Seq<char>,
    iat: int,
    exp: int,
)
    requires
        0 <= iat <= i64::MAX,
        0 <= exp <= i64::MAX,
        spec_issued_token(secret, sub_b, t, iat, exp),
    ensures
        exists|jti_b: Seq<u8>|
            #[trigger] valid_utf8(jti_b) && spec_token_parts(secret, encode_utf8(t)) == Some(
                (sub_b, jti_b, iat, exp),
            ),
{
    let jti_b = choose|jti_b: Seq<u8>| spec_issued_with(secret, sub_b, jti_b, t, iat, exp);
    lemma_token_round_trip(secret, sub_b, jti_b, iat, exp);
    assert(valid_utf8(jti_b) && spec_token_parts(secret, encode_utf8(t)) == Some(
        (sub_b, jti_b, iat, exp),
    ));
}

/// Two tokens issued at different instants are different texts: a token's
/// decomposition recovers its issue time, so equal texts would decompose to
/// equal claims. (Of two tokens issued at the very same instant nothing is
/// claimed: their distinctness rests on the freshness of the random token
/// id, of which nothing is promised.)
pub proof fn lemma_distinct_issue_times_distinct_tokens(
    secret: Seq<u8>,
    sub_b1: Seq<u8>,
    sub_b2: Seq<u8>,
    t1: Seq<char>,
    t2: Seq<char>,
    iat1: int,
    exp1: int,
    iat2: int,
    exp2: int,
)
    requires
        0 <= iat1 <= i64::MAX,
        0 <= exp1 <= i64::MAX,
        0 <= iat2 <= i64::MAX,
        0 <= exp2 <= i64::MAX,
        spec_issued_token(secret, sub_b1, t1, iat1, exp1),
        spec_issued_token(secret, sub_b2, t2, iat2, exp2),
        iat1 != iat2,
    ensures
        t1 != t2,
{
    lemma_issued_token_decodes(secret, sub_b1, t1, iat1, exp1);
    lemma_issued_token_decodes(secret, sub_b2, t2, iat2, exp2);
    if t1 == t2 {
        let j1 = choose|jti_b: Seq<u8>|
            valid_utf8(jti_b) && spec_token_parts(secret, encode_utf8(t1)) == Some(
                (sub_b1, jti_b, iat1, exp1),
            );
        let j2 = choose|jti_b: Seq<u8>|
            valid_utf8(jti_b) && spec_token_parts(secret, encode_utf8(t2)) == Some(
                (sub_b2, jti_b, iat2, exp2),
            );
        assert(spec_token_parts(secret, encode_utf8(t1)) == Some((sub_b1, j1, iat1, exp1)));
        assert(spec_token_parts(secret, encode_utf8(t2)) == Some((sub_b2, j2, iat2, exp2)));
        assert(encode_utf8(t1) == encode_utf8(t2));
        assert(iat1 == iat2);
    }
}

/// Stateless signing and verification of access tokens under one shared
/// secret.
pub struct JwtTokenProvider {
    secret: Vec<u8>,
}

impl Clone for JwtTokenProvider {
    fn clone(&self) -> (r: Self)
        ensures
            r.secret_bytes() == self.secret_bytes(),
    {
        JwtTokenProvider { secret: self.secret.clone() }
    }
}

impl JwtTokenProvider {
    /// The shared secret, as bytes.
    pub closed spec fn secret_bytes(&self) -> Seq<u8> {
        self.secret@
    }

    /// A codec signing with the UTF-8 bytes of `secret`.
    pub fn new(secret: &str) -> (r: Self)
        ensures
            r.secret_bytes() == encode_utf8(secret@),
    {
        JwtTokenProvider { secret: secret.as_bytes_vec() }
    }

    /// Issues a token for `user_id` with the given lifetime: a fresh random
    /// token id, issued now, expiring `expiration_secs` later.
    pub fn generate_token(&self, user_id: &str, expiration_secs: i64, now: i64) -> (r: Result<
        String,
        AppError,
    >)
        requires
            0 <= now,
            0 <= expiration_secs,
            now + expiration_secs <= i64::MAX,
        ensures
            r matches Ok(t) && spec_issued_token(
                self.secret_bytes(),
                encode_utf8(user_id@),
                t@,
                now as int,
                now + expiration_secs,
            ),
    {
        let jti = ids::new_id_string();
        let iat = now;
        let exp = now + expiration_secs;
        let sub_v = user_id.as_bytes_vec();
        let jti_v = jti.as_str().as_bytes_vec();
        let cj = claims_json(sub_v.as_slice(), jti_v.as_slice(), iat, exp);
        let hv = header_json_vec();
        let mut msg = b64_encode(hv.as_slice());
        msg.push(46);
        let mut cenc = b64_encode(cj.as_slice());
        msg.append(&mut cenc);
        let ghost msg_view = msg@;
        proof {
            assert(msg_view =~= spec_signing_input(sub_v@, jti_v@, iat as int, exp as int));
        }
        let sig = sign_hs256(self.secret.as_slice(), msg.as_slice());
        let mut token_bytes = msg;
        token_bytes.push(46);
        let mut sigm = sig;
        token_bytes.append(&mut sigm);
        proof {
            assert(token_bytes@ =~= spec_token_bytes(
                self.secret@,
                sub_v@,
                jti_v@,
                iat as int,
                exp as int,
            ));
            // every byte of the token is ASCII, so it is a valid UTF-8 string
            lemma_b64_encode_bytes_in_alphabet(header_json());
            lemma_b64_encode_bytes_in_alphabet(cj@);
            assert forall|i: int| 0 <= i < token_bytes@.len() implies token_bytes@[i] < 128 by {
                let hb = spec_b64_encode(header_json());
                let cb = spec_b64_encode(cj@);
                let sg = hs256_sig_of(self.secret@, msg_view);
                assert(token_bytes@ =~= hb + seq![46u8] + cb + seq![46u8] + sg);
                let b = token_bytes@[i];
                if i < hb.len() {
                    assert(b == hb[i] && is_b64url_byte(b));
                } else if i == hb.len() {
                    assert(b == 46);
                } else if i < hb.len() + 1 + cb.len() {
                    assert(b == cb[i - hb.len() - 1] && is_b64url_byte(b));
                } else if i == hb.len() + 1 + cb.len() {
                    assert(b == 46);
                } else {
                    assert(b == sg[i - (hb.len() + 1 + cb.len()) - 1] && is_b64url_byte(b));
                }
            }
            lemma_ascii_bytes_utf8(token_bytes@);
        }
        let ghost tbv = token_bytes@;
        match string_from_utf8(token_bytes) {
            Some(t) => {
                proof {
                    vstd::utf8::decode_utf8_encode_utf8(tbv);
                    assert(valid_utf8(jti_v@)) by {
                        assert(jti_v@ == encode_utf8(jti@));
                        vstd::utf8::encode_utf8_valid_utf8(jti@);
                    }
                    assert(spec_issued_with(
                        self.secret_bytes(),
                        encode_utf8(user_id@),
                        jti_v@,
                        t@,
                        iat as int,
                        exp as int,
                    ));
                }
                Ok(t)
            },
            None => Err(
                AppError::TokenGenerationFailed(String::from_str("token text encoding failed")),
            ),
        }
    }

    /// Verifies and decodes a token: checks the framing, the signature, and
    /// then the expiry against `now`. Expired tokens fail with `TokenExpired`;
    /// every other defect fails with `TokenParsingFailed`.
    #[verifier::loop_isolation(false)]
    pub fn decode_token(&self, token: &str, now: i64) -> (r: Result<Claims, AppError>)
        ensures
            match spec_token_parts(self.secret_bytes(), token.spec_bytes()) {
                None => r matches Err(AppError::TokenParsingFailed(_)),
                Some(parts) => if now > parts.3 {
                    r matches Err(AppError::TokenExpired)
                } else if valid_utf8(parts.0) && valid_utf8(parts.1) {
                    r matches Ok(c) && c.sub@ == decode_utf8(parts.0) && c.jti@ == decode_utf8(
                        parts.1,
                    ) && c.iat == parts.2 && c.exp == parts.3
                } else {
                    r matches Err(AppError::TokenParsingFailed(_))
                },
            },
    {
        let bytes = token.as_bytes_vec();
        let ghost tb = token.spec_bytes();
        proof {
            vstd::utf8::encode_utf8_valid_utf8(token@);
        }
        let d_opt = find_last_byte(bytes.as_slice(), 46);
        proof {
            lemma_last_dot_char(tb);
        }
        let d = match d_opt {
            None => {
                proof {
                    assert(spec_last_dot(tb) is None) by {
                        match spec_last_dot(tb) {
                            Some(i) => {
                                assert(tb[i] == 46);
                            },
                            None => {},
                        }
                    }
                }
                return Err(AppError::TokenParsingFailed(String::from_str("malformed token")));
            },
            Some(d) => d,
        };
        proof {
            let sd = spec_last_dot(tb);
            assert(sd is Some) by {
                if sd is None {
                    assert(tb[d as int] != 46);
                }
            }
            assert(sd->0 == d) by {
                if sd->0 < d {
                    assert(tb[d as int] != 46);
                }
                if sd->0 > d {
                    assert(tb[sd->0] != 46);
                }
            }
        }
        let ghost msg_spec = tb.subrange(0, d as int);
        let ghost sig_spec = tb.subrange(d + 1, tb.len() as int);
        // structural check of the signature segment
        if bytes.len() - d <= 1 {
            proof {
                assert(sig_spec.len() == 0);
            }
            return Err(AppError::TokenParsingFailed(String::from_str("malformed token")));
        }
        let mut k: usize = d + 1;
        while k < bytes.len()
            invariant
                d + 1 <= k <= bytes@.len(),
                bytes@ == tb,
                d < tb.len(),
                forall|i: int| d + 1 <= i < k ==> is_b64url_byte(#[trigger] tb[i]),
            decreases bytes.len() - k,
        {
            if !crate::b64::is_b64url(bytes[k]) {
                proof {
                    assert(sig_spec.len() == tb.len() - d - 1);
                    assert(0 <= k - d - 1 < sig_spec.len());
                    assert(sig_spec[k - d - 1] == tb[(d + 1) + (k - d - 1)]);
                    assert((d + 1) + (k - d - 1) == k as int);
                    assert(!is_b64url_byte(sig_spec[k - d - 1]));
                }
                return Err(AppError::TokenParsingFailed(String::from_str("malformed token")));
            }
            k = k + 1;
        }
        proof {
            assert(forall|i: int|
                0 <= i < sig_spec.len() ==> is_b64url_byte(#[trigger] sig_spec[i])) by {
                assert(forall|i: int|
                    0 <= i < sig_spec.len() ==> sig_spec[i] == tb[d + 1 + i] && is_b64url_byte(
                        #[trigger] tb[d + 1 + i],
                    ));
            }
        }
        // split the token text around the last dot for signature verification
        proof {
            vstd::utf8::is_char_boundary_iff_not_is_continuation_byte(tb, d as int);
            assert(!vstd::utf8::is_continuation_byte(tb[d as int]));
        }
        let (mstr, rest) = token.split_at(d);
        proof {
            vstd::utf8::valid_utf8_split(tb, d as int);
            assert(rest.spec_bytes() =~= tb.subrange(d as int, tb.len() as int));
            assert(rest.spec_bytes()[1] == tb[d + 1]);
            assert(is_b64url_byte(tb[d + 1]));
            assert(tb[d + 1] < 128) by {
                assert(is_b64url_byte(tb[d + 1]) ==> tb[d + 1] < 128);
            }
            vstd::utf8::is_char_boundary_iff_not_is_continuation_byte(rest.spec_bytes(), 1);
        }
        let (_dot, sigstr) = rest.split_at(1);
        proof {
            assert(sigstr.spec_bytes() =~= sig_spec);
            assert(mstr.spec_bytes() =~= msg_spec);
        }
        let ok = verify_hs256(sigstr, mstr.as_bytes(), self.secret.as_slice());
        if !ok {
            return Err(AppError::TokenParsingFailed(String::from_str("invalid signature")));
        }
        // split the message around its first dot: header and claims segments
        let msgv = subvec(bytes.as_slice(), 0, d);
        proof {
            assert(msgv@ =~= msg_spec);
            lemma_first_dot_char(msg_spec);
        }
        let d2 = match find_first_byte(msgv.as_slice(), 46) {
            None => {
                proof {
                    assert(spec_first_dot(msg_spec) is None) by {
                        match spec_first_dot(msg_spec) {
                            Some(i) => {
                                assert(msg_spec[i] == 46);
                            },
                            None => {},
                        }
                    }
                }
                return Err(AppError::TokenParsingFailed(String::from_str("malformed token")));
            },
            Some(d2) => d2,
        };
        proof {
            let fd = spec_first_dot(msg_spec);
            assert(fd is Some) by {
                if fd is None {
                    assert(msg_spec[d2 as int] != 46);
                }
            }
            assert(fd->0 == d2) by {
                if fd->0 < d2 {
                    assert(msg_spec[fd->0] != 46);
                }
                if fd->0 > d2 {
                    assert(msg_spec[d2 as int] != 46);
                }
            }
        }
        let hdr = subvec(msgv.as_slice(), 0, d2);
        let hv = header_json_vec();
        let expected = b64_encode(hv.as_slice());
        if !eq_bytes(hdr.as_slice(), expected.as_slice()) {
            proof {
                assert(hdr@ =~= msg_spec.subrange(0, d2 as int));
            }
            return Err(AppError::TokenParsingFailed(String::from_str("malformed token")));
        }
        proof {
            assert(hdr@ =~= msg_spec.subrange(0, d2 as int));
        }
        let penc = subvec(msgv.as_slice(), d2 + 1, msgv.len());
        proof {
            assert(penc@ =~= msg_spec.subrange(d2 + 1, msg_spec.len() as int));
        }
        let payload = match b64_decode(penc.as_slice()) {
            None => {
                return Err(AppError::TokenParsingFailed(String::from_str("malformed token")));
            },
            Some(p) => p,
        };
        match parse_claims(payload.as_slice()) {
            None => {
                proof {
                    assert(spec_token_parts(self.secret_bytes(), tb) is None);
                }
                Err(AppError::TokenParsingFailed(String::from_str("malformed token")))
            },
            Some((sub_v, jti_v, iat, exp)) => {
                proof {
                    assert(spec_token_parts(self.secret_bytes(), tb) == Some(
                        (sub_v@, jti_v@, iat as int, exp as int),
                    ));
                }
                if now > exp {
                    return Err(AppError::TokenExpired);
                }
                let ghost sub_bs = sub_v@;
                let ghost jti_bs = jti_v@;
                let sub_s = match string_from_utf8(sub_v) {
                    None => {
                        return Err(
                            AppError::TokenParsingFailed(String::from_str("malformed token")),
                        );
                    },
                    Some(s) => s,
                };
                let jti_s = match string_from_utf8(jti_v) {
                    None => {
                        return Err(
                            AppError::TokenParsingFailed(String::from_str("malformed token")),
                        );
                    },
                    Some(s) => s,
                };
                Ok(Claims { sub: sub_s, jti: jti_s, iat, exp })
            },
        }
    }
}

} // verus!
