//! Decimal and fixed-width hexadecimal renderings of machine integers,
//! with their parsing inverses.
//!
//! The token codec renders token fields as fixed-width lowercase hex, and
//! the claims subject as decimal; the authorization gate parses the subject
//! back. The round-trip lemmas here make those codecs invertible.

use vstd::prelude::*;

verus! {

pub open spec fn dec_digit(d: int) -> char {
    if d == 0 { '0' } else if d == 1 { '1' } else if d == 2 { '2' } else if d == 3 { '3' }
    else if d == 4 { '4' } else if d == 5 { '5' } else if d == 6 { '6' } else if d == 7 { '7' }
    else if d == 8 { '8' } else { '9' }
}

pub open spec fn hex_digit(d: int) -> char {
    if d < 10 { dec_digit(d) } else if d == 10 { 'a' } else if d == 11 { 'b' }
    else if d == 12 { 'c' } else if d == 13 { 'd' } else if d == 14 { 'e' } else { 'f' }
}

pub open spec fn is_dec_digit(c: char) -> bool {
    48 <= c as u32 <= 57
}

pub open spec fn is_hex_digit(c: char) -> bool {
    is_dec_digit(c) || (97 <= c as u32 <= 102)
}

pub open spec fn dec_digit_val(c: char) -> int {
    c as u32 - 48
}

pub open spec fn hex_digit_val(c: char) -> int {
    if is_dec_digit(c) {
        dec_digit_val(c)
    } else {
        c as u32 - 87
    }
}

/// The usual decimal rendering: no leading zero except for zero itself.
pub open spec fn dec_chars(n: nat) -> Seq<char>
    decreases n,
{
    if n < 10 {
        seq![dec_digit(n as int)]
    } else {
        dec_chars(n / 10) + seq![dec_digit((n % 10) as int)]
    }
}

pub open spec fn all_dec_digits(s: Seq<char>) -> bool {
    forall|i: int| 0 <= i < s.len() ==> is_dec_digit(#[trigger] s[i])
}

pub open spec fn all_hex_digits(s: Seq<char>) -> bool {
    forall|i: int| 0 <= i < s.len() ==> is_hex_digit(#[trigger] s[i])
}

/// Value of a decimal digit string.
pub open spec fn dec_val(s: Seq<char>) -> nat
    decreases s.len(),
{
    if s.len() == 0 {
        0
    } else {
        dec_val(s.drop_last()) * 10 + (if is_dec_digit(s.last()) {
            dec_digit_val(s.last())
        } else {
            0
        }) as nat
    }
}

/// Value of a lowercase hex digit string.
pub open spec fn hex_val(s: Seq<char>) -> nat
    decreases s.len(),
{
    if s.len() == 0 {
        0
    } else {
        hex_val(s.drop_last()) * 16 + (if is_hex_digit(s.last()) {
            hex_digit_val(s.last())
        } else {
            0
        }) as nat
    }
}

pub open spec fn pow16(w: nat) -> nat
    decreases w,
{
    if w == 0 {
        1
    } else {
        16 * pow16((w - 1) as nat)
    }
}

/// Rendering of `n` as exactly `w` lowercase hex digits, most significant
/// first.
pub open spec fn hex_chars_w(n: nat, w: nat) -> Seq<char>
    decreases w,
{
    if w == 0 {
        Seq::empty()
    } else {
        hex_chars_w(n / 16, (w - 1) as nat) + seq![hex_digit((n % 16) as int)]
    }
}

/// Lowercase hex rendering of a byte string, two digits per byte.
pub open spec fn hex_of_bytes(b: Seq<u8>) -> Seq<char>
    decreases b.len(),
{
    if b.len() == 0 {
        Seq::empty()
    } else {
        hex_of_bytes(b.drop_last()) + hex_chars_w(b.last() as nat, 2)
    }
}

/// Any fixed-width hex rendering has its stated width and consists of hex
/// digits.
pub proof fn lemma_hex_chars_w_len(n: nat, w: nat)
    ensures
        hex_chars_w(n, w).len() == w,
        all_hex_digits(hex_chars_w(n, w)),
    decreases w,
{
    if w > 0 {
        lemma_hex_chars_w_len(n / 16, (w - 1) as nat);
        let s = hex_chars_w(n, w);
        assert(s.drop_last() =~= hex_chars_w(n / 16, (w - 1) as nat));
        assert(is_hex_digit(hex_digit((n % 16) as int)));
    }
}

/// The hex rendering of a byte string is twice as long and consists of hex
/// digits.
pub proof fn lemma_hex_of_bytes_len(b: Seq<u8>)
    ensures
        hex_of_bytes(b).len() == 2 * b.len(),
        all_hex_digits(hex_of_bytes(b)),
    decreases b.len(),
{
    if b.len() > 0 {
        lemma_hex_of_bytes_len(b.drop_last());
        lemma_hex_chars_w_len(b.last() as nat, 2);
    }
}

/// The decimal rendering consists of decimal digits and reads back to the
/// same number.
pub proof fn lemma_dec_chars_roundtrip(n: nat)
    ensures
        dec_chars(n).len() >= 1,
        all_dec_digits(dec_chars(n)),
        dec_val(dec_chars(n)) == n,
    decreases n,
{
    if n < 10 {
        assert(is_dec_digit(dec_digit(n as int)) && dec_digit_val(dec_digit(n as int)) == n);
        let s = dec_chars(n);
        assert(s == seq![dec_digit(n as int)]);
        assert(s.len() == 1);
        assert(s.last() == dec_digit(n as int));
        assert(s.drop_last() =~= Seq::<char>::empty());
        assert(dec_val(s.drop_last()) == 0);
        assert(dec_val(s) == dec_val(s.drop_last()) * 10 + dec_digit_val(s.last()) as nat);
        assert(dec_val(s) == n);
    } else {
        lemma_dec_chars_roundtrip(n / 10);
        let d = (n % 10) as int;
        assert(is_dec_digit(dec_digit(d)) && dec_digit_val(dec_digit(d)) == d);
        let s = dec_chars(n);
        assert(s.drop_last() =~= dec_chars(n / 10));
        assert(s.last() == dec_digit(d));
        assert(dec_val(s) == dec_val(dec_chars(n / 10)) * 10 + (n % 10));
    }
}

/// The value of a digit string dominates the value of each of its prefixes.
pub proof fn lemma_dec_val_prefix(s: Seq<char>, i: int)
    requires
        0 <= i <= s.len(),
    ensures
        dec_val(s) >= dec_val(s.subrange(0, i)),
    decreases s.len() - i,
{
    if i == s.len() {
        assert(s.subrange(0, i) =~= s);
    } else {
        assert(s.drop_last().subrange(0, i) =~= s.subrange(0, i));
        lemma_dec_val_prefix(s.drop_last(), i);
        assert(dec_val(s) >= dec_val(s.drop_last()));
    }
}

/// The fixed-width hex rendering of `n < 16^w` has width `w`, consists of
/// hex digits, and reads back to the same number.
pub proof fn lemma_hex_chars_w_roundtrip(n: nat, w: nat)
    requires
        n < pow16(w),
    ensures
        hex_chars_w(n, w).len() == w,
        all_hex_digits(hex_chars_w(n, w)),
        hex_val(hex_chars_w(n, w)) == n,
    decreases w,
{
    if w == 0 {
        assert(hex_chars_w(n, w) =~= Seq::<char>::empty());
    } else {
        let p = pow16((w - 1) as nat);
        assert(pow16(w) == 16 * p);
        assert(n / 16 < p) by (nonlinear_arith)
            requires
                n < 16 * p,
                p >= 1,
        ;
        lemma_hex_chars_w_roundtrip(n / 16, (w - 1) as nat);
        let s = hex_chars_w(n, w);
        assert(s.drop_last() =~= hex_chars_w(n / 16, (w - 1) as nat));
        assert(s.last() == hex_digit((n % 16) as int));
        assert(hex_val(s) == hex_val(s.drop_last()) * 16 + (n % 16));
    }
}

/// Two numbers with the same fixed-width hex rendering are equal.
pub proof fn lemma_hex_chars_w_injective(a: nat, b: nat, w: nat)
    requires
        a < pow16(w),
        b < pow16(w),
        hex_chars_w(a, w) == hex_chars_w(b, w),
    ensures
        a == b,
{
    lemma_hex_chars_w_roundtrip(a, w);
    lemma_hex_chars_w_roundtrip(b, w);
}

pub proof fn lemma_pow16_16()
    ensures
        pow16(16) == 0x10000000000000000,
{
    reveal_with_fuel(pow16, 17);
}

fn dec_digit_str(d: u8) -> (r: &'static str)
    requires
        d < 10,
    ensures
        r@ =~= seq![dec_digit(d as int)],
{
    proof {
        reveal_strlit("0");
        reveal_strlit("1");
        reveal_strlit("2");
        reveal_strlit("3");
        reveal_strlit("4");
        reveal_strlit("5");
        reveal_strlit("6");
        reveal_strlit("7");
        reveal_strlit("8");
        reveal_strlit("9");
    }
    match d {
        0 => "0",
        1 => "1",
        2 => "2",
        3 => "3",
        4 => "4",
        5 => "5",
        6 => "6",
        7 => "7",
        8 => "8",
        _ => "9",
    }
}

fn hex_digit_str(d: u8) -> (r: &'static str)
    requires
        d < 16,
    ensures
        r@ =~= seq![hex_digit(d as int)],
{
    proof {
        reveal_strlit("a");
        reveal_strlit("b");
        reveal_strlit("c");
        reveal_strlit("d");
        reveal_strlit("e");
        reveal_strlit("f");
    }
    if d < 10 {
        dec_digit_str(d)
    } else {
        match d {
            10 => "a",
            11 => "b",
            12 => "c",
            13 => "d",
            14 => "e",
            _ => "f",
        }
    }
}

/// Decimal rendering of a machine integer.
pub fn u64_to_dec(n: u64) -> (r: String)
    ensures
        r@ == dec_chars(n as nat),
    decreases n,
{
    if n < 10 {
        let s = dec_digit_str(n as u8);
        let r = s.to_owned();
        proof {
            assert(r@ =~= dec_chars(n as nat));
        }
        r
    } else {
        let mut r = u64_to_dec(n / 10);
        r.append(dec_digit_str((n % 10) as u8));
        proof {
            assert(r@ =~= dec_chars(n as nat));
        }
        r
    }
}

fn u64_to_hex_w(n: u64, w: u8) -> (r: String)
    requires
        (n as nat) < pow16(w as nat),
    ensures
        r@ == hex_chars_w(n as nat, w as nat),
    decreases w,
{
    if w == 0 {
        String::new()
    } else {
        proof {
            let p = pow16((w - 1) as nat);
            assert(pow16(w as nat) == 16 * p);
            assert((n as nat) / 16 < p) by (nonlinear_arith)
                requires
                    (n as nat) < 16 * p,
                    p >= 1,
            ;
            assert((n / 16) as nat == (n as nat) / 16);
            assert((n % 16) as nat == (n as nat) % 16);
        }
        let mut r = u64_to_hex_w(n / 16, w - 1);
        r.append(hex_digit_str((n % 16) as u8));
        proof {
            assert(r@ =~= hex_chars_w(n as nat, w as nat));
        }
        r
    }
}

/// Rendering of a machine integer as exactly sixteen lowercase hex digits.
pub fn u64_to_hex16(n: u64) -> (r: String)
    ensures
        r@ == hex_chars_w(n as nat, 16),
        r@.len() == 16,
{
    proof {
        lemma_pow16_16();
        lemma_hex_chars_w_roundtrip(n as nat, 16);
    }
    u64_to_hex_w(n, 16)
}

/// Lowercase hex rendering of a byte string.
pub fn bytes_to_hex(b: &Vec<u8>) -> (r: String)
    ensures
        r@ == hex_of_bytes(b@),
{
    let n = b.len();
    let mut r = String::new();
    let mut i: usize = 0;
    proof {
        assert(b@.subrange(0, 0) =~= Seq::<u8>::empty());
        assert(r@ =~= hex_of_bytes(b@.subrange(0, 0)));
    }
    while i < n
        invariant
            n == b@.len(),
            0 <= i <= n,
            r@ == hex_of_bytes(b@.subrange(0, i as int)),
        decreases n - i,
    {
        proof {
            reveal_with_fuel(pow16, 3);
        }
        let piece = u64_to_hex_w(b[i] as u64, 2);
        r.append(piece.as_str());
        proof {
            let pre = b@.subrange(0, i as int);
            let post = b@.subrange(0, i as int + 1);
            assert(post.drop_last() =~= pre);
            assert(post.last() == b@[i as int]);
            assert(r@ =~= hex_of_bytes(post));
        }
        i = i + 1;
    }
    proof {
        assert(b@.subrange(0, n as int) =~= b@);
    }
    r
}

/// Parse exactly sixteen lowercase hex digits, most significant first.
/// Fails exactly when a character is not a lowercase hex digit.
pub fn parse_hex16(s: &str, from: usize) -> (r: Option<u64>)
    requires
        from + 16 <= s@.len(),
        from <= usize::MAX - 16,
    ensures
        match r {
            Some(v) => s@.subrange(from as int, from as int + 16) == hex_chars_w(v as nat, 16),
            None => !all_hex_digits(s@.subrange(from as int, from as int + 16)),
        },
{
    let ghost sub = s@.subrange(from as int, from as int + 16);
    let mut acc: u64 = 0;
    let mut i: usize = 0;
    proof {
        assert(hex_chars_w(0, 0) =~= sub.subrange(0, 0));
    }
    while i < 16
        invariant
            from + 16 <= s@.len(),
            from <= usize::MAX - 16,
            sub == s@.subrange(from as int, from as int + 16),
            0 <= i <= 16,
            (acc as nat) < pow16(i as nat),
            hex_chars_w(acc as nat, i as nat) == sub.subrange(0, i as int),
        decreases 16 - i,
    {
        let c = s.get_char(from + i);
        proof {
            assert(c == sub[i as int]);
        }
        let d: u8 = match c {
            '0' => 0,
            '1' => 1,
            '2' => 2,
            '3' => 3,
            '4' => 4,
            '5' => 5,
            '6' => 6,
            '7' => 7,
            '8' => 8,
            '9' => 9,
            'a' => 10,
            'b' => 11,
            'c' => 12,
            'd' => 13,
            'e' => 14,
            'f' => 15,
            _ => {
                proof {
                    assert(!is_hex_digit(sub[i as int]));
                }
                return None;
            },
        };
        proof {
            assert(is_hex_digit(c) && hex_digit_val(c) == d as int);
            let p = pow16(i as nat);
            lemma_pow16_16();
            assert(pow16((i + 1) as nat) == 16 * p);
            assert((acc as nat) * 16 + (d as nat) < 16 * p) by (nonlinear_arith)
                requires
                    (acc as nat) < p,
                    (d as nat) < 16,
            ;
            assert(pow16(16 as nat) == 0x10000000000000000);
            assert(forall|k: nat| k <= 16 ==> #[trigger] pow16(k) <= pow16(16)) by {
                assert forall|k: nat| k <= 16 implies #[trigger] pow16(k) <= pow16(16) by {
                    lemma_pow16_monotone(k, 16);
                }
            }
        }
        let next: u64 = acc * 16 + (d as u64);
        proof {
            let a = acc as nat;
            let dd = d as nat;
            assert((next as nat) / 16 == a && (next as nat) % 16 == dd) by (nonlinear_arith)
                requires
                    next as nat == a * 16 + dd,
                    dd < 16,
            ;
            assert(hex_chars_w(next as nat, (i + 1) as nat) =~= sub.subrange(0, i as int + 1));
        }
        acc = next;
        i = i + 1;
    }
    proof {
        assert(sub.subrange(0, 16) =~= sub);
    }
    Some(acc)
}

pub proof fn lemma_pow16_monotone(a: nat, b: nat)
    requires
        a <= b,
    ensures
        pow16(a) <= pow16(b),
    decreases b,
{
    if a < b {
        lemma_pow16_monotone(a, (b - 1) as nat);
        assert(pow16(b) == 16 * pow16((b - 1) as nat));
    }
}

/// Parse a decimal principal identifier, as the authorization gate does with
/// a token subject. Succeeds exactly on non-empty all-digit strings whose
/// value fits in the identifier type.
pub fn parse_i32_dec(s: &str) -> (r: Option<i32>)
    ensures
        match r {
            Some(v) => {
                &&& s@.len() > 0
                &&& all_dec_digits(s@)
                &&& dec_val(s@) <= i32::MAX
                &&& v as nat == dec_val(s@)
                &&& v >= 0
            },
            None => s@.len() == 0 || !all_dec_digits(s@) || dec_val(s@) > i32::MAX,
        },
{
    let n = s.unicode_len();
    if n == 0 {
        return None;
    }
    let mut acc: u32 = 0;
    let mut i: usize = 0;
    proof {
        assert(s@.subrange(0, 0) =~= Seq::<char>::empty());
    }
    while i < n
        invariant
            n == s@.len(),
            n > 0,
            0 <= i <= n,
            acc <= i32::MAX,
            acc as nat == dec_val(s@.subrange(0, i as int)),
            all_dec_digits(s@.subrange(0, i as int)),
        decreases n - i,
    {
        let c = s.get_char(i);
        let cv = c as u32;
        if cv < 48 || cv > 57 {
            proof {
                assert(!is_dec_digit(s@[i as int]));
                assert(!all_dec_digits(s@));
            }
            return None;
        }
        let d: u32 = cv - 48;
        proof {
            let pre = s@.subrange(0, i as int);
            let post = s@.subrange(0, i as int + 1);
            assert(post.drop_last() =~= pre);
            assert(post.last() == s@[i as int]);
            assert(is_dec_digit(s@[i as int]) && dec_digit_val(s@[i as int]) == d as int);
        }
        let next: u64 = (acc as u64) * 10 + (d as u64);
        if next > i32::MAX as u64 {
            proof {
                let post = s@.subrange(0, i as int + 1);
                assert(dec_val(post) == next as nat);
                if all_dec_digits(s@) {
                    lemma_dec_val_prefix(s@, i as int + 1);
                    assert(dec_val(s@) >= dec_val(post));
                }
            }
            return None;
        }
        acc = next as u32;
        i = i + 1;
    }
    proof {
        assert(s@.subrange(0, n as int) =~= s@);
    }
    Some(acc as i32)
}

} // verus!
