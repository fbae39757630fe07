//! Authorization gate: extracts a bearer credential from an inbound
//! request's headers — an `Authorization: Bearer` value or a named cookie —
//! verifies it, and resolves the principal identifier it names. Any failure
//! is the one low-information `Unauthorized`.

use vstd::prelude::*;

use crate::errors::CoreError;
use crate::numbers::{lemma_dec_chars_roundtrip, parse_i32_dec};
use crate::token::{chars_eq_at, lemma_token_chars_injective, token_chars, verify};

verus! {

pub open spec fn is_cookie_ws(c: char) -> bool {
    c == ' ' || c == '\t'
}

/// Index of the first `"; "` at or after `from`, or the length when none.
pub open spec fn find_sep(s: Seq<char>, from: int) -> int
    decreases s.len() - from,
{
    if from + 2 > s.len() {
        s.len() as int
    } else if s[from] == ';' && s[from + 1] == ' ' {
        from
    } else {
        find_sep(s, from + 1)
    }
}

/// Index of the first `'='` in `[from, to)`, or `to` when none.
pub open spec fn find_eq(s: Seq<char>, from: int, to: int) -> int
    decreases to - from,
{
    if from >= to {
        to
    } else if s[from] == '=' {
        from
    } else {
        find_eq(s, from + 1, to)
    }
}

/// First index in `[from, to)` holding no whitespace, or `to`.
pub open spec fn skip_ws(s: Seq<char>, from: int, to: int) -> int
    decreases to - from,
{
    if from >= to {
        to
    } else if is_cookie_ws(s[from]) {
        skip_ws(s, from + 1, to)
    } else {
        from
    }
}

/// End of `[from, to)` after dropping trailing whitespace.
pub open spec fn rskip_ws(s: Seq<char>, from: int, to: int) -> int
    decreases to - from,
{
    if to <= from {
        from
    } else if is_cookie_ws(s[to - 1]) {
        rskip_ws(s, from, to - 1)
    } else {
        to
    }
}

/// The characters of `[from, to)` with surrounding whitespace dropped.
pub open spec fn trimmed(s: Seq<char>, from: int, to: int) -> Seq<char> {
    let a = skip_ws(s, from, to);
    s.subrange(a, rskip_ws(s, a, to))
}

pub proof fn lemma_find_sep_bounds(s: Seq<char>, from: int)
    requires
        0 <= from <= s.len(),
    ensures
        from <= find_sep(s, from) <= s.len(),
    decreases s.len() - from,
{
    if from + 2 > s.len() {
    } else if s[from] == ';' && s[from + 1] == ' ' {
    } else {
        lemma_find_sep_bounds(s, from + 1);
    }
}

/// Value of the first `"; "`-separated segment of the header, at or after
/// `from`, whose trimmed name equals `key`; names and values are separated
/// by the segment's first `'='`, and a segment without one is skipped.
pub open spec fn cookie_lookup(s: Seq<char>, key: Seq<char>, from: int) -> Option<Seq<char>>
    decreases s.len() - from,
        when 0 <= from <= s.len()
        via cookie_lookup_dec
{
    let end = find_sep(s, from);
    let eq = find_eq(s, from, end);
    if eq < end && trimmed(s, from, eq) == key {
        Some(trimmed(s, eq + 1, end))
    } else if end + 2 <= s.len() {
        cookie_lookup(s, key, end + 2)
    } else {
        None
    }
}

#[via_fn]
proof fn cookie_lookup_dec(s: Seq<char>, key: Seq<char>, from: int) {
    lemma_find_sep_bounds(s, from);
}

fn sep_from(s: &str, from: usize) -> (r: usize)
    requires
        from <= s@.len(),
        s@.len() <= usize::MAX,
    ensures
        r == find_sep(s@, from as int),
        from <= r <= s@.len(),
    decreases s@.len() - from,
{
    let len = s.unicode_len();
    if len < 2 || from > len - 2 {
        len
    } else if s.get_char(from) == ';' && s.get_char(from + 1) == ' ' {
        from
    } else {
        sep_from(s, from + 1)
    }
}

fn eq_from(s: &str, from: usize, to: usize) -> (r: usize)
    requires
        from <= to <= s@.len(),
        s@.len() <= usize::MAX,
    ensures
        r == find_eq(s@, from as int, to as int),
        from <= r <= to,
    decreases to - from,
{
    if from >= to {
        to
    } else if s.get_char(from) == '=' {
        from
    } else {
        eq_from(s, from + 1, to)
    }
}

fn skip_from(s: &str, from: usize, to: usize) -> (r: usize)
    requires
        from <= to <= s@.len(),
        s@.len() <= usize::MAX,
    ensures
        r == skip_ws(s@, from as int, to as int),
        from <= r <= to,
    decreases to - from,
{
    if from >= to {
        to
    } else {
        let c = s.get_char(from);
        if c == ' ' || c == '\t' {
            skip_from(s, from + 1, to)
        } else {
            from
        }
    }
}

fn rskip_from(s: &str, from: usize, to: usize) -> (r: usize)
    requires
        from <= to <= s@.len(),
        s@.len() <= usize::MAX,
    ensures
        r == rskip_ws(s@, from as int, to as int),
        from <= r <= to,
    decreases to - from,
{
    if to <= from {
        from
    } else {
        let c = s.get_char(to - 1);
        if c == ' ' || c == '\t' {
            rskip_from(s, from, to - 1)
        } else {
            to
        }
    }
}

/// Whether `s[from..to)` equals the characters of `t`.
fn range_eq(s: &str, from: usize, to: usize, t: &str) -> (r: bool)
    requires
        from <= to <= s@.len(),
        s@.len() <= usize::MAX,
    ensures
        r == (s@.subrange(from as int, to as int) == t@),
{
    let tn = t.unicode_len();
    if to - from != tn {
        return false;
    }
    let r = chars_eq_at(s, from, t);
    proof {
        if r {
            assert(s@.subrange(from as int, from as int + t@.len() as int) =~= s@.subrange(
                from as int,
                to as int,
            ));
        } else {
            if s@.subrange(from as int, to as int) == t@ {
                assert(s@.subrange(from as int, from as int + t@.len() as int) =~= s@.subrange(
                    from as int,
                    to as int,
                ));
            }
        }
    }
    r
}

fn lookup_from(s: &str, key: &str, from: usize) -> (r: Option<String>)
    requires
        from <= s@.len(),
        s@.len() <= usize::MAX,
    ensures
        match r {
            Some(v) => cookie_lookup(s@, key@, from as int) == Some(v@),
            None => cookie_lookup(s@, key@, from as int) is None,
        },
    decreases s@.len() - from,
{
    let len = s.unicode_len();
    let end = sep_from(s, from);
    let eq = eq_from(s, from, end);
    let na = skip_from(s, from, eq);
    let nb = rskip_from(s, na, eq);
    let found = if eq < end {
        range_eq(s, na, nb, key)
    } else {
        false
    };
    if found {
        let va = skip_from(s, eq + 1, end);
        let vb = rskip_from(s, va, end);
        let v = s.substring_char(va, vb).to_owned();
        proof {
            assert(v@ == trimmed(s@, eq as int + 1, end as int));
        }
        Some(v)
    } else if len >= 2 && end <= len - 2 {
        lookup_from(s, key, end + 2)
    } else {
        None
    }
}

/// The value of the cookie named `key` in a `Cookie` header: segments are
/// split on `"; "`, a segment's name and value sit around its first `'='`
/// and are trimmed of surrounding whitespace; the first match wins.
pub fn get_cookie_value(cookie_header: &str, key: &str) -> (r: Option<String>)
    ensures
        match r {
            Some(v) => cookie_lookup(cookie_header@, key@, 0) == Some(v@),
            None => cookie_lookup(cookie_header@, key@, 0) is None,
        },
{
    let len = cookie_header.unicode_len();
    proof {
        assert(len == cookie_header@.len());
    }
    lookup_from(cookie_header, key, 0)
}

/// Resolve the principal identifier asserted by an `Authorization` header.
///
/// Succeeds exactly on a present header of the form `Bearer <token>` whose
/// token verifies under the secret at `now` and names a subject that fits
/// the identifier type; every well-formed unexpired bearer header resolves
/// (the last `ensures` clause), and every failure is `Unauthorized`.
pub fn authorize_header(auth_header: Option<&str>, secret: &str, now: u64) -> (r: Result<
    i32,
    CoreError,
>)
    ensures
        match r {
            Ok(id) => exists|sub: u64, iat: u64, exp: u64|
                auth_header matches Some(h) && h@ == "Bearer "@ + #[trigger] token_chars(
                    secret@,
                    sub,
                    iat,
                    exp,
                ) && now <= exp && id as u64 == sub,
            Err(e) => e == CoreError::Unauthorized,
        },
        forall|sub: u64, iat: u64, exp: u64|
            (auth_header matches Some(h) && h@ == "Bearer "@ + #[trigger] token_chars(
                secret@,
                sub,
                iat,
                exp,
            ) && now <= exp && sub <= i32::MAX as u64) ==> (r matches Ok(id) && id as u64 == sub),
{
    proof {
        reveal_strlit("Bearer ");
    }
    let h = match auth_header {
        Some(h) => h,
        None => {
            return Err(CoreError::Unauthorized);
        },
    };
    let len = h.unicode_len();
    if len < 7 {
        proof {
            assert forall|sub: u64, iat: u64, exp: u64|
                h@ != "Bearer "@ + #[trigger] token_chars(secret@, sub, iat, exp) by {
                if h@ == "Bearer "@ + token_chars(secret@, sub, iat, exp) {
                    assert(h@.len() >= 7);
                }
            }
        }
        return Err(CoreError::Unauthorized);
    }
    let prefixed = chars_eq_at(h, 0, "Bearer ");
    if !prefixed {
        proof {
            assert forall|sub: u64, iat: u64, exp: u64|
                h@ != "Bearer "@ + #[trigger] token_chars(secret@, sub, iat, exp) by {
                if h@ == "Bearer "@ + token_chars(secret@, sub, iat, exp) {
                    assert(h@.subrange(0, 7) =~= "Bearer "@);
                }
            }
        }
        return Err(CoreError::Unauthorized);
    }
    let token = h.substring_char(7, len);
    proof {
        assert forall|sub: u64, iat: u64, exp: u64|
            h@ == "Bearer "@ + #[trigger] token_chars(secret@, sub, iat, exp) implies token@
            == token_chars(secret@, sub, iat, exp) by {
            assert(token@ =~= token_chars(secret@, sub, iat, exp));
        }
    }
    resolve_subject(token, secret, now, Ghost(h@))
}

/// Resolve the principal identifier asserted by a `Cookie` header carrying
/// the token under the cookie name `auth_token`.
///
/// Succeeds exactly on a present header whose `auth_token` cookie verifies
/// under the secret at `now` and names a subject that fits the identifier
/// type; every header whose `auth_token` cookie is a well-formed unexpired
/// token resolves (the last `ensures` clause), and every failure is
/// `Unauthorized`.
pub fn authorize_cookie(cookie_header: Option<&str>, secret: &str, now: u64) -> (r: Result<
    i32,
    CoreError,
>)
    ensures
        match r {
            Ok(id) => exists|sub: u64, iat: u64, exp: u64|
                cookie_header matches Some(h) && cookie_lookup(h@, "auth_token"@, 0) == Some(
                    #[trigger] token_chars(secret@, sub, iat, exp),
                ) && now <= exp && id as u64 == sub,
            Err(e) => e == CoreError::Unauthorized,
        },
        forall|sub: u64, iat: u64, exp: u64|
            (cookie_header matches Some(h) && cookie_lookup(h@, "auth_token"@, 0) == Some(
                #[trigger] token_chars(secret@, sub, iat, exp),
            ) && now <= exp && sub <= i32::MAX as u64) ==> (r matches Ok(id) && id as u64 == sub),
{
    let h = match cookie_header {
        Some(h) => h,
        None => {
            return Err(CoreError::Unauthorized);
        },
    };
    let token = match get_cookie_value(h, "auth_token") {
        Some(t) => t,
        None => {
            return Err(CoreError::Unauthorized);
        },
    };
    resolve_subject(token.as_str(), secret, now, Ghost(h@))
}

/// Verify a bare token and parse its subject as a principal identifier.
fn resolve_subject(token: &str, secret: &str, now: u64, header: Ghost<Seq<char>>) -> (r: Result<
    i32,
    CoreError,
>)
    ensures
        match r {
            Ok(id) => exists|sub: u64, iat: u64, exp: u64|
                token@ == #[trigger] token_chars(secret@, sub, iat, exp) && now <= exp && id as u64
                    == sub,
            Err(e) => e == CoreError::Unauthorized,
        },
        forall|sub: u64, iat: u64, exp: u64|
            (token@ == #[trigger] token_chars(secret@, sub, iat, exp) && now <= exp && sub
                <= i32::MAX as u64) ==> (r matches Ok(id) && id as u64 == sub),
{
    let claims = match verify(secret, token, now) {
        Ok(c) => c,
        Err(_) => {
            return Err(CoreError::Unauthorized);
        },
    };
    let ghost (vsub, viat, vexp) = choose|sub: u64, iat: u64, exp: u64|
        token@ == #[trigger] token_chars(secret@, sub, iat, exp) && claims.sub@ == crate::numbers::dec_chars(
            sub as nat,
        ) && claims.iat == iat && claims.exp == exp && now <= exp;
    proof {
        lemma_dec_chars_roundtrip(vsub as nat);
    }
    let id = match parse_i32_dec(claims.sub.as_str()) {
        Some(id) => id,
        None => {
            proof {
                assert forall|sub: u64, iat: u64, exp: u64|
                    (token@ == #[trigger] token_chars(secret@, sub, iat, exp) && now <= exp && sub
                        <= i32::MAX as u64) implies false by {
                    lemma_token_chars_injective(secret@, sub, iat, exp, vsub, viat, vexp);
                }
            }
            return Err(CoreError::Unauthorized);
        },
    };
    proof {
        assert(id as u64 == vsub);
        assert forall|sub: u64, iat: u64, exp: u64|
            (token@ == #[trigger] token_chars(secret@, sub, iat, exp) && now <= exp && sub
                <= i32::MAX as u64) implies id as u64 == sub by {
            lemma_token_chars_injective(secret@, sub, iat, exp, vsub, viat, vexp);
        }
    }
    Ok(id)
}

} // verus!
