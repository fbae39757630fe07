//! Token codec: signs and verifies bearer tokens carrying a subject and an
//! expiry window.
//!
//! A token is 112 lowercase hex characters: subject, issued-at and expiry as
//! sixteen digits each, followed by 64 digits of HMAC-SHA256 over those
//! first 48, keyed with a process-wide secret. Verification fails with
//! `Malformed` when the shape is wrong, `BadSignature` when the tag does not
//! match, and `Expired` when the check happens strictly after the expiry.

use vstd::prelude::*;

use hmac::Mac;

use crate::numbers::{
    all_hex_digits, bytes_to_hex, dec_chars, hex_of_bytes, hex_chars_w, lemma_hex_chars_w_len,
    lemma_hex_of_bytes_len, lemma_pow16_16, parse_hex16, u64_to_dec, u64_to_hex16,
};

verus! {

/// Claims embedded in a bearer token: decimal subject, expiry and issued-at
/// in seconds.
#[derive(Debug, Clone)]
pub struct Claims {
    pub sub: String,
    pub exp: u64,
    pub iat: u64,
}

#[derive(Clone, Copy, PartialEq, Eq, Structural, Debug)]
pub enum TokenError {
    /// The token cannot be parsed.
    Malformed,
    /// The signature check fails.
    BadSignature,
    /// The current time exceeds the embedded expiry.
    Expired,
}

/// HMAC-SHA256 tag of a message under a key; a function of the two alone.
pub uninterp spec fn mac_of(key: Seq<char>, msg: Seq<char>) -> Seq<u8>;

/// Relies on `hmac::Hmac<sha2::Sha256>`: the tag is a deterministic function
/// of key and message alone, 32 bytes long; HMAC accepts keys of any length,
/// so `new_from_slice` cannot fail.
#[verifier::external_body]
fn hmac_sha256(key: &str, msg: &str) -> (r: Vec<u8>)
    ensures
        r@ == mac_of(key@, msg@),
        r@.len() == 32,
{
    let mut mac = <hmac::Hmac<sha2::Sha256> as Mac>::new_from_slice(key.as_bytes()).unwrap();
    mac.update(msg.as_bytes());
    mac.finalize().into_bytes().to_vec()
}

/// The unsigned first 48 characters of a token.
pub open spec fn payload_chars(sub: u64, iat: u64, exp: u64) -> Seq<char> {
    hex_chars_w(sub as nat, 16) + hex_chars_w(iat as nat, 16) + hex_chars_w(exp as nat, 16)
}

/// The canonical token for a subject and window under a secret.
pub open spec fn token_chars(secret: Seq<char>, sub: u64, iat: u64, exp: u64) -> Seq<char> {
    payload_chars(sub, iat, exp) + hex_of_bytes(mac_of(secret, payload_chars(sub, iat, exp)))
}

/// Issue a token for `sub` at time `now`, expiring at `now + ttl`.
pub fn issue(secret: &str, sub: u64, now: u64, ttl: u64) -> (r: String)
    requires
        now + ttl <= u64::MAX,
    ensures
        r@ == token_chars(secret@, sub, now, (now + ttl) as u64),
{
    let exp = now + ttl;
    let mut payload = u64_to_hex16(sub);
    let iat_part = u64_to_hex16(now);
    payload.append(iat_part.as_str());
    let exp_part = u64_to_hex16(exp);
    payload.append(exp_part.as_str());
    proof {
        assert(payload@ == payload_chars(sub, now, exp));
    }
    let mac = hmac_sha256(secret, payload.as_str());
    let sig = bytes_to_hex(&mac);
    let mut token = payload;
    token.append(sig.as_str());
    token
}

/// Whether the characters of `t` occur in `s` starting at `from`.
pub(crate) fn chars_eq_at(s: &str, from: usize, t: &str) -> (r: bool)
    requires
        from + t@.len() <= s@.len(),
        s@.len() <= usize::MAX,
    ensures
        r == (s@.subrange(from as int, from as int + t@.len() as int) == t@),
{
    let n = t.unicode_len();
    let mut i: usize = 0;
    while i < n
        invariant
            n == t@.len(),
            from + n <= s@.len(),
            s@.len() <= usize::MAX,
            0 <= i <= n,
            forall|j: int| 0 <= j < i ==> s@[from + j] == t@[j],
        decreases n - i,
    {
        let a = s.get_char(from + i);
        let b = t.get_char(i);
        if a != b {
            proof {
                let sub = s@.subrange(from as int, from as int + t@.len() as int);
                assert(sub[i as int] != t@[i as int]);
            }
            return false;
        }
        i = i + 1;
    }
    proof {
        assert(s@.subrange(from as int, from as int + t@.len() as int) =~= t@);
    }
    true
}

/// Two equal canonical tokens under one secret embed the same subject and
/// window.
pub proof fn lemma_token_chars_injective(
    secret: Seq<char>,
    a: u64,
    b: u64,
    c: u64,
    a2: u64,
    b2: u64,
    c2: u64,
)
    requires
        token_chars(secret, a, b, c) == token_chars(secret, a2, b2, c2),
    ensures
        a == a2,
        b == b2,
        c == c2,
{
    lemma_hex_chars_w_len(a as nat, 16);
    lemma_hex_chars_w_len(b as nat, 16);
    lemma_hex_chars_w_len(c as nat, 16);
    lemma_hex_chars_w_len(a2 as nat, 16);
    lemma_hex_chars_w_len(b2 as nat, 16);
    lemma_hex_chars_w_len(c2 as nat, 16);
    let t1 = token_chars(secret, a, b, c);
    let t2 = token_chars(secret, a2, b2, c2);
    assert(t1.subrange(0, 16) =~= hex_chars_w(a as nat, 16));
    assert(t1.subrange(16, 32) =~= hex_chars_w(b as nat, 16));
    assert(t1.subrange(32, 48) =~= hex_chars_w(c as nat, 16));
    assert(t2.subrange(0, 16) =~= hex_chars_w(a2 as nat, 16));
    assert(t2.subrange(16, 32) =~= hex_chars_w(b2 as nat, 16));
    assert(t2.subrange(32, 48) =~= hex_chars_w(c2 as nat, 16));
    lemma_pow16_16();
    crate::numbers::lemma_hex_chars_w_injective(a as nat, a2 as nat, 16);
    crate::numbers::lemma_hex_chars_w_injective(b as nat, b2 as nat, 16);
    crate::numbers::lemma_hex_chars_w_injective(c as nat, c2 as nat, 16);
}

/// Verify a token under a secret at time `now`.
///
/// On success the returned claims carry the decimal rendering of the
/// embedded subject with its issued-at and expiry, the token is exactly the
/// canonical signed token for those values, and the expiry has not passed.
/// Every token issued under this secret verifies until its expiry and fails
/// with `Expired` strictly after it; this is the last `ensures` clause.
pub fn verify(secret: &str, token: &str, now: u64) -> (r: Result<Claims, TokenError>)
    ensures
        match r {
            Ok(c) => exists|sub: u64, iat: u64, exp: u64|
                token@ == #[trigger] token_chars(secret@, sub, iat, exp) && c.sub@ == dec_chars(
                    sub as nat,
                ) && c.iat == iat && c.exp == exp && now <= exp,
            Err(e) => e == TokenError::Expired ==> exists|sub: u64, iat: u64, exp: u64|
                token@ == #[trigger] token_chars(secret@, sub, iat, exp) && now > exp,
        },
        forall|sub: u64, iat: u64, exp: u64|
            token@ == #[trigger] token_chars(secret@, sub, iat, exp) ==> if now <= exp {
                r matches Ok(c) && c.sub@ == dec_chars(sub as nat) && c.iat == iat && c.exp == exp
            } else {
                r matches Err(e) && e == TokenError::Expired
            },
{
    let len = token.unicode_len();
    proof {
        lemma_pow16_16();
        assert forall|sub: u64, iat: u64, exp: u64|
            #[trigger] token_chars(secret@, sub, iat, exp).len() >= 48
                && token_chars(secret@, sub, iat, exp).subrange(0, 48) == payload_chars(
                sub,
                iat,
                exp,
            ) && all_hex_digits(payload_chars(sub, iat, exp)) by {
            lemma_hex_chars_w_len(sub as nat, 16);
            lemma_hex_chars_w_len(iat as nat, 16);
            lemma_hex_chars_w_len(exp as nat, 16);
            let p = payload_chars(sub, iat, exp);
            let t = token_chars(secret@, sub, iat, exp);
            assert(p.len() == 48);
            assert(t.subrange(0, 48) =~= p);
            assert(all_hex_digits(p));
        }
    }
    if len < 48 {
        return Err(TokenError::Malformed);
    }
    let sub_v = match parse_hex16(token, 0) {
        Some(v) => v,
        None => {
            proof {
                assert forall|sub: u64, iat: u64, exp: u64|
                    token@ != #[trigger] token_chars(secret@, sub, iat, exp) by {
                    if token@ == token_chars(secret@, sub, iat, exp) {
                        let p = payload_chars(sub, iat, exp);
                        assert(token@.subrange(0, 16) =~= p.subrange(0, 16));
                        assert(all_hex_digits(token@.subrange(0, 16)));
                    }
                }
            }
            return Err(TokenError::Malformed);
        },
    };
    let iat_v = match parse_hex16(token, 16) {
        Some(v) => v,
        None => {
            proof {
                assert forall|sub: u64, iat: u64, exp: u64|
                    token@ != #[trigger] token_chars(secret@, sub, iat, exp) by {
                    if token@ == token_chars(secret@, sub, iat, exp) {
                        let p = payload_chars(sub, iat, exp);
                        assert(token@.subrange(16, 32) =~= p.subrange(16, 32));
                        assert(all_hex_digits(token@.subrange(16, 32)));
                    }
                }
            }
            return Err(TokenError::Malformed);
        },
    };
    let exp_v = match parse_hex16(token, 32) {
        Some(v) => v,
        None => {
            proof {
                assert forall|sub: u64, iat: u64, exp: u64|
                    token@ != #[trigger] token_chars(secret@, sub, iat, exp) by {
                    if token@ == token_chars(secret@, sub, iat, exp) {
                        let p = payload_chars(sub, iat, exp);
                        assert(token@.subrange(32, 48) =~= p.subrange(32, 48));
                        assert(all_hex_digits(token@.subrange(32, 48)));
                    }
                }
            }
            return Err(TokenError::Malformed);
        },
    };
    proof {
        assert(token@.subrange(0, 48) =~= token@.subrange(0, 16) + token@.subrange(16, 32)
            + token@.subrange(32, 48));
        assert(token@.subrange(0, 48) == payload_chars(sub_v, iat_v, exp_v));
        assert forall|sub: u64, iat: u64, exp: u64|
            token@ == #[trigger] token_chars(secret@, sub, iat, exp) implies sub == sub_v && iat
            == iat_v && exp == exp_v by {
            let p = payload_chars(sub, iat, exp);
            lemma_hex_chars_w_len(sub as nat, 16);
            lemma_hex_chars_w_len(iat as nat, 16);
            lemma_hex_chars_w_len(exp as nat, 16);
            assert(p.subrange(0, 16) =~= hex_chars_w(sub as nat, 16));
            assert(p.subrange(16, 32) =~= hex_chars_w(iat as nat, 16));
            assert(p.subrange(32, 48) =~= hex_chars_w(exp as nat, 16));
            assert(token@.subrange(0, 16) =~= p.subrange(0, 16));
            assert(token@.subrange(16, 32) =~= p.subrange(16, 32));
            assert(token@.subrange(32, 48) =~= p.subrange(32, 48));
            lemma_pow16_16();
            crate::numbers::lemma_hex_chars_w_injective(sub as nat, sub_v as nat, 16);
            crate::numbers::lemma_hex_chars_w_injective(iat as nat, iat_v as nat, 16);
            crate::numbers::lemma_hex_chars_w_injective(exp as nat, exp_v as nat, 16);
        }
    }
    let payload = token.substring_char(0, 48);
    let mac = hmac_sha256(secret, payload);
    let sig = bytes_to_hex(&mac);
    proof {
        lemma_hex_of_bytes_len(mac@);
        assert(sig@ == hex_of_bytes(mac_of(secret@, payload_chars(sub_v, iat_v, exp_v))));
        assert(sig@.len() == 64);
        assert(token_chars(secret@, sub_v, iat_v, exp_v).len() == 112);
    }
    if len != 112 {
        return Err(TokenError::Malformed);
    }
    let sig_ok = chars_eq_at(token, 48, sig.as_str());
    proof {
        assert(token@ =~= token@.subrange(0, 48) + token@.subrange(48, 112));
        if token@.subrange(48, 112) == sig@ {
            assert(token@ =~= token_chars(secret@, sub_v, iat_v, exp_v));
        } else {
            assert(token@ != token_chars(secret@, sub_v, iat_v, exp_v)) by {
                if token@ == token_chars(secret@, sub_v, iat_v, exp_v) {
                    assert(token@.subrange(48, 112) =~= sig@);
                }
            }
        }
    }
    if !sig_ok {
        return Err(TokenError::BadSignature);
    }
    if now > exp_v {
        return Err(TokenError::Expired);
    }
    let claims = Claims { sub: u64_to_dec(sub_v), exp: exp_v, iat: iat_v };
    Ok(claims)
}

} // verus!
