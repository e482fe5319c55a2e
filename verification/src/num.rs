//! Decimal rendering and parsing of the integer coordinates and player
//! identifiers that appear on the wire, with the round-trip lemmas the
//! codec builds on.

use vstd::prelude::*;
use vstd::arithmetic::div_mod::lemma_fundamental_div_mod;

verus! {

/// Value of a decimal digit character, or -1 for any other character.
pub open spec fn digit_char_val(c: char) -> int {
    if c == '0' {
        0
    } else if c == '1' {
        1
    } else if c == '2' {
        2
    } else if c == '3' {
        3
    } else if c == '4' {
        4
    } else if c == '5' {
        5
    } else if c == '6' {
        6
    } else if c == '7' {
        7
    } else if c == '8' {
        8
    } else if c == '9' {
        9
    } else {
        -1
    }
}

pub open spec fn is_digit_char(c: char) -> bool {
    digit_char_val(c) >= 0
}

pub open spec fn all_digit_chars(s: Seq<char>) -> bool {
    forall|i: int| 0 <= i < s.len() ==> is_digit_char(s[i])
}

/// The character for a digit value in 0..=9.
pub open spec fn digit_to_char(d: int) -> char {
    if d == 0 {
        '0'
    } else if d == 1 {
        '1'
    } else if d == 2 {
        '2'
    } else if d == 3 {
        '3'
    } else if d == 4 {
        '4'
    } else if d == 5 {
        '5'
    } else if d == 6 {
        '6'
    } else if d == 7 {
        '7'
    } else if d == 8 {
        '8'
    } else {
        '9'
    }
}

/// Canonical decimal digits of `n`, most significant first, no leading
/// zero except for `n == 0` itself.
pub open spec fn dec_digits(n: nat) -> Seq<char>
    decreases n,
{
    if n < 10 {
        seq![digit_to_char(n as int)]
    } else {
        dec_digits(n / 10).push(digit_to_char((n % 10) as int))
    }
}

/// Canonical decimal text of an integer: a `-` sign for negatives, then
/// the digits of the magnitude.
pub open spec fn int_chars(v: int) -> Seq<char> {
    if v < 0 {
        seq!['-'] + dec_digits((-v) as nat)
    } else {
        dec_digits(v as nat)
    }
}

/// Numeric value of a digit string, most significant digit first.
pub open spec fn digits_val(s: Seq<char>) -> int
    decreases s.len(),
{
    if s.len() == 0 {
        0
    } else {
        digits_val(s.drop_last()) * 10 + digit_char_val(s.last())
    }
}

pub open spec fn pow10(k: nat) -> int
    decreases k,
{
    if k == 0 {
        1
    } else {
        10 * pow10((k - 1) as nat)
    }
}

/// Meaning of a decimal integer token: an optional sign, then at least
/// one digit with no superfluous leading zero, valuing a 32-bit integer.
pub open spec fn parse_int_spec(s: Seq<char>) -> Option<int> {
    let neg = s.len() >= 1 && s[0] == '-';
    let ds = if neg {
        s.skip(1)
    } else {
        s
    };
    if ds.len() >= 1 && all_digit_chars(ds) && (ds.len() == 1 || ds[0] != '0') {
        let v = if neg {
            -digits_val(ds)
        } else {
            digits_val(ds)
        };
        if -0x8000_0000 <= v <= 0x7fff_ffff {
            Some(v)
        } else {
            None
        }
    } else {
        None
    }
}

/// The digits of `n` are non-empty decimal digits without a leading
/// zero, and value `n` again.
pub proof fn lemma_dec_digits(n: nat)
    ensures
        dec_digits(n).len() >= 1,
        all_digit_chars(dec_digits(n)),
        digits_val(dec_digits(n)) == n,
        n >= 1 ==> dec_digits(n)[0] != '0',
        n >= 10 ==> dec_digits(n).len() >= 2,
    decreases n,
{
    if n < 10 {
        let s = dec_digits(n);
        assert(s == seq![digit_to_char(n as int)]);
        assert(s.drop_last() =~= Seq::<char>::empty());
        assert(s.last() == digit_to_char(n as int));
        assert(digits_val(Seq::<char>::empty()) == 0);
        assert(digit_char_val(digit_to_char(n as int)) == n);
        assert(digits_val(s) == digits_val(s.drop_last()) * 10 + digit_char_val(s.last()));
    } else {
        lemma_dec_digits(n / 10);
        lemma_fundamental_div_mod(n as int, 10);
        let r = dec_digits(n / 10);
        let s = dec_digits(n);
        assert(s == r.push(digit_to_char((n % 10) as int)));
        assert(s.drop_last() =~= r);
        assert(s.last() == digit_to_char((n % 10) as int));
        assert(digit_char_val(digit_to_char((n % 10) as int)) == n % 10);
        assert(digits_val(s) == digits_val(r) * 10 + n % 10);
        assert(s[0] == r[0]);
        assert(n / 10 >= 1);
        assert forall|i: int| 0 <= i < s.len() implies is_digit_char(s[i]) by {
            if i < r.len() {
                assert(s[i] == r[i]);
            }
        }
    }
}

/// Every character of a rendered integer is a digit or the sign, so it
/// is none of the protocol's delimiter characters.
pub proof fn lemma_int_chars_class(v: int)
    ensures
        forall|i: int| 0 <= i < int_chars(v).len() ==> is_digit_char(#[trigger] int_chars(v)[i])
            || int_chars(v)[i] == '-',
{
    if v < 0 {
        lemma_dec_digits((-v) as nat);
        let d = dec_digits((-v) as nat);
        let s = int_chars(v);
        assert(s == seq!['-'] + d);
        assert forall|i: int| 0 <= i < s.len() implies is_digit_char(#[trigger] s[i]) || s[i]
            == '-' by {
            if i > 0 {
                assert(s[i] == d[i - 1]);
            }
        }
    } else {
        lemma_dec_digits(v as nat);
    }
}

/// A digit string without a leading zero is at least as large as the
/// power of ten of its width.
pub proof fn lemma_digits_val_lower(s: Seq<char>)
    requires
        s.len() >= 1,
        all_digit_chars(s),
        s[0] != '0',
    ensures
        digits_val(s) >= pow10((s.len() - 1) as nat),
    decreases s.len(),
{
    if s.len() == 1 {
        assert(digits_val(s) == digits_val(s.drop_last()) * 10 + digit_char_val(s.last()));
        assert(s.last() == s[0]);
        assert(digit_char_val(s[0]) >= 1);
    } else {
        let r = s.drop_last();
        assert(forall|i: int| 0 <= i < r.len() ==> r[i] == s[i]);
        lemma_digits_val_lower(r);
        assert(digit_char_val(s.last()) >= 0);
        assert(digits_val(s) == digits_val(r) * 10 + digit_char_val(s.last()));
    }
}

/// Parsing undoes rendering for every 32-bit value.
pub proof fn lemma_parse_int_chars(v: int)
    requires
        -0x8000_0000 <= v <= 0x7fff_ffff,
    ensures
        parse_int_spec(int_chars(v)) == Some(v),
{
    if v < 0 {
        let d = dec_digits((-v) as nat);
        lemma_dec_digits((-v) as nat);
        let s = int_chars(v);
        assert(s == seq!['-'] + d);
        assert(s[0] == '-');
        assert(s.skip(1) =~= d);
    } else {
        let s = int_chars(v);
        assert(s == dec_digits(v as nat));
        lemma_dec_digits(v as nat);
        assert(is_digit_char(s[0]));
        assert(s[0] != '-');
    }
}

/// The character for one digit value.
fn digit_str(d: u64) -> (s: &'static str)
    requires
        d < 10,
    ensures
        s@ == seq![digit_to_char(d as int)],
{
    proof {
        reveal_strlit("0");
        reveal_strlit("1");
        reveal_strlit("2");
        reveal_strlit("3");
        reveal_strlit("4");
        reveal_strlit("5");
        reveal_strlit("6");
        reveal_strlit("7");
        reveal_strlit("8");
        reveal_strlit("9");
    }
    let s = if d == 0 {
        "0"
    } else if d == 1 {
        "1"
    } else if d == 2 {
        "2"
    } else if d == 3 {
        "3"
    } else if d == 4 {
        "4"
    } else if d == 5 {
        "5"
    } else if d == 6 {
        "6"
    } else if d == 7 {
        "7"
    } else if d == 8 {
        "8"
    } else {
        "9"
    };
    proof {
        assert(s@ =~= seq![digit_to_char(d as int)]);
    }
    s
}

/// Appends the canonical decimal digits of `n`.
fn append_dec(out: &mut String, n: u64)
    ensures
        final(out)@ == old(out)@ + dec_digits(n as nat),
    decreases n,
{
    if n < 10 {
        let ghost pre = out@;
        out.append(digit_str(n));
        proof {
            assert(out@ =~= pre + dec_digits(n as nat));
        }
    } else {
        let ghost pre = out@;
        append_dec(out, n / 10);
        out.append(digit_str(n % 10));
        proof {
            assert(out@ =~= pre + dec_digits(n as nat));
        }
    }
}

/// Appends the canonical decimal text of `v`.
pub fn append_int(out: &mut String, v: i32)
    ensures
        final(out)@ == old(out)@ + int_chars(v as int),
{
    let ghost pre = out@;
    if v < 0 {
        proof {
            reveal_strlit("-");
        }
        out.append("-");
        let mag: u64 = (-(v as i64)) as u64;
        append_dec(out, mag);
        proof {
            assert(out@ =~= pre + int_chars(v as int));
        }
    } else {
        append_dec(out, v as u64);
    }
}

/// Value of one digit character, if it is one.
fn char_digit(c: char) -> (r: Option<u8>)
    ensures
        match r {
            Some(d) => digit_char_val(c) == d as int,
            None => !is_digit_char(c),
        },
{
    if c == '0' {
        Some(0)
    } else if c == '1' {
        Some(1)
    } else if c == '2' {
        Some(2)
    } else if c == '3' {
        Some(3)
    } else if c == '4' {
        Some(4)
    } else if c == '5' {
        Some(5)
    } else if c == '6' {
        Some(6)
    } else if c == '7' {
        Some(7)
    } else if c == '8' {
        Some(8)
    } else if c == '9' {
        Some(9)
    } else {
        None
    }
}

/// Parses a decimal integer token into a 32-bit value; `None` exactly
/// when the token is not canonical decimal or the value does not fit.
pub fn parse_int(s: &str) -> (r: Option<i32>)
    ensures
        match r {
            Some(v) => parse_int_spec(s@) == Some(v as int),
            None => parse_int_spec(s@) is None,
        },
{
    let n = s.unicode_len();
    let neg = n >= 1 && s.get_char(0) == '-';
    let start: usize = if neg {
        1
    } else {
        0
    };
    let ghost ds = if neg {
        s@.skip(1)
    } else {
        s@
    };
    proof {
        assert(forall|i: int| 0 <= i < ds.len() ==> ds[i] == s@[i + start]);
    }
    let dn = n - start;
    if dn == 0 {
        return None;
    }
    if dn > 10 {
        proof {
            if all_digit_chars(ds) && (ds.len() == 1 || ds[0] != '0') {
                lemma_digits_val_lower(ds);
                reveal_with_fuel(pow10, 12);
                assert(pow10((ds.len() - 1) as nat) >= pow10(10)) by {
                    lemma_pow10_mono(10, (ds.len() - 1) as nat);
                }
            }
        }
        return None;
    }
    let mut acc: i64 = 0;
    let mut k: usize = 0;
    while k < dn
        invariant
            n == s@.len(),
            start + dn == n,
            start <= 1,
            neg ==> start == 1 && s@[0] == '-',
            !neg ==> start == 0 && (s@.len() == 0 || s@[0] != '-'),
            ds == if neg {
                s@.skip(1)
            } else {
                s@
            },
            ds.len() == dn,
            1 <= dn <= 10,
            0 <= k <= dn,
            forall|i: int| 0 <= i < ds.len() ==> ds[i] == s@[i + start],
            forall|i: int| 0 <= i < k ==> is_digit_char(ds[i]),
            dn > 1 ==> (k >= 1 ==> ds[0] != '0'),
            acc == digits_val(ds.take(k as int)),
            0 <= acc < pow10(k as nat),
        decreases dn - k,
    {
        let c = s.get_char(start + k);
        let d = match char_digit(c) {
            Some(d) => d,
            None => {
                proof {
                    assert(!is_digit_char(ds[k as int]));
                }
                return None;
            },
        };
        if k == 0 && dn > 1 && d == 0 {
            proof {
                assert(ds[0] == c);
                assert(digit_char_val(c) == 0);
                assert(c == '0');
            }
            return None;
        }
        proof {
            assert(ds.take(k + 1).drop_last() =~= ds.take(k as int));
            assert(ds.take(k + 1).last() == ds[k as int]);
            reveal_with_fuel(pow10, 12);
            lemma_pow10_mono(k as nat, 10);
            assert(acc * 10 + d <= (pow10(k as nat) - 1) * 10 + 9);
        }
        acc = acc * 10 + d as i64;
        k += 1;
        proof {
            if k == 1 && dn > 1 {
                assert(ds[0] != '0');
            }
        }
    }
    proof {
        assert(ds.take(dn as int) =~= ds);
        reveal_with_fuel(pow10, 12);
        lemma_pow10_mono(dn as nat, 10);
    }
    let v: i64 = if neg {
        -acc
    } else {
        acc
    };
    if v < -0x8000_0000i64 || v > 0x7fff_ffffi64 {
        return None;
    }
    Some(v as i32)
}

/// Powers of ten are monotone in the exponent.
pub proof fn lemma_pow10_mono(a: nat, b: nat)
    requires
        a <= b,
    ensures
        pow10(a) <= pow10(b),
        pow10(a) >= 1,
    decreases b,
{
    if b == 0 {
    } else if a == b {
        lemma_pow10_mono((b - 1) as nat, (b - 1) as nat);
    } else {
        lemma_pow10_mono(a, (b - 1) as nat);
    }
}

} // verus!
