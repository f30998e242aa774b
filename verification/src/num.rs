//! Decimal text used by the wire formats.
//!
//! Numbers travel as canonical decimal: no sign for zero, no leading zeros,
//! and times in milliseconds are written as seconds with exactly three
//! fractional digits. Encoding and parsing are each specified against the
//! same spec-level definitions, and parsing a canonical encoding is proved to
//! give back the encoded value.

use vstd::prelude::*;

verus! {

/// The decimal digit character for `d`.
pub open spec fn digit_char(d: int) -> char
    recommends
        0 <= d <= 9,
{
    if d == 0 {
        '0'
    } else if d == 1 {
        '1'
    } else if d == 2 {
        '2'
    } else if d == 3 {
        '3'
    } else if d == 4 {
        '4'
    } else if d == 5 {
        '5'
    } else if d == 6 {
        '6'
    } else if d == 7 {
        '7'
    } else if d == 8 {
        '8'
    } else {
        '9'
    }
}

/// Whether `c` is a decimal digit character.
pub open spec fn is_digit(c: char) -> bool {
    '0' as int <= c as int <= '9' as int
}

/// The value of a decimal digit character.
pub open spec fn digit_val(c: char) -> int {
    c as int - '0' as int
}

/// Canonical decimal digits of `n`, most significant first.
pub open spec fn spec_u64_dec(n: nat) -> Seq<char>
    decreases n,
{
    if n < 10 {
        seq![digit_char(n as int)]
    } else {
        spec_u64_dec(n / 10) + seq![digit_char((n % 10) as int)]
    }
}

/// Canonical decimal text of a signed value: a minus sign for negatives.
pub open spec fn spec_i64_dec(v: int) -> Seq<char> {
    if v < 0 {
        seq!['-'] + spec_u64_dec((-v) as nat)
    } else {
        spec_u64_dec(v as nat)
    }
}

/// Exactly three digits for a fraction of a second, `0 <= r < 1000`.
pub open spec fn spec_frac3(r: int) -> Seq<char>
    recommends
        0 <= r < 1000,
{
    seq![digit_char(r / 100), digit_char((r / 10) % 10), digit_char(r % 10)]
}

/// A millisecond count written as seconds with exactly three fractional
/// digits, such as `-7.050` for `-7050` milliseconds.
pub open spec fn spec_ms_dec(ms: int) -> Seq<char> {
    let a = if ms < 0 {
        -ms
    } else {
        ms
    };
    (if ms < 0 {
        seq!['-']
    } else {
        Seq::<char>::empty()
    }) + spec_u64_dec((a / 1000) as nat) + seq!['.'] + spec_frac3(a % 1000)
}

/// The canonical digits of a value are all digits, there is at least one, and
/// only zero starts with the zero digit.
pub proof fn lemma_u64_dec_digits(n: nat)
    ensures
        spec_u64_dec(n).len() >= 1,
        forall|i: int| 0 <= i < spec_u64_dec(n).len() ==> is_digit(#[trigger] spec_u64_dec(n)[i]),
        spec_u64_dec(n)[0] == '0' ==> n == 0,
    decreases n,
{
    if n >= 10 {
        lemma_u64_dec_digits(n / 10);
        assert(forall|i: int|
            0 <= i < spec_u64_dec(n / 10).len() ==> spec_u64_dec(n)[i] == #[trigger] spec_u64_dec(
                n / 10,
            )[i]);
        assert(spec_u64_dec(n).last() == digit_char((n % 10) as int));
    }
}

/// Append the digit character for `d` to `out`.
pub(crate) fn append_digit(out: &mut String, d: u64)
    requires
        d <= 9,
    ensures
        final(out)@ == old(out)@ + seq![digit_char(d as int)],
{
    let p: &str = if d == 0 {
        "0"
    } else if d == 1 {
        "1"
    } else if d == 2 {
        "2"
    } else if d == 3 {
        "3"
    } else if d == 4 {
        "4"
    } else if d == 5 {
        "5"
    } else if d == 6 {
        "6"
    } else if d == 7 {
        "7"
    } else if d == 8 {
        "8"
    } else {
        "9"
    };
    proof {
        reveal_strlit("0");
        reveal_strlit("1");
        reveal_strlit("2");
        reveal_strlit("3");
        reveal_strlit("4");
        reveal_strlit("5");
        reveal_strlit("6");
        reveal_strlit("7");
        reveal_strlit("8");
        reveal_strlit("9");
        assert(p@ =~= seq![digit_char(d as int)]);
    }
    out.append(p);
}

/// Append the canonical decimal digits of `n` to `out`.
pub fn append_u64(out: &mut String, n: u64)
    ensures
        final(out)@ == old(out)@ + spec_u64_dec(n as nat),
    decreases n,
{
    if n < 10 {
        append_digit(out, n);
    } else {
        append_u64(out, n / 10);
        append_digit(out, n % 10);
        proof {
            assert(final(out)@ =~= old(out)@ + spec_u64_dec(n as nat));
        }
    }
}

/// Append the canonical decimal text of `v` to `out`.
pub fn append_i64(out: &mut String, v: i64)
    requires
        v != i64::MIN,
    ensures
        final(out)@ == old(out)@ + spec_i64_dec(v as int),
{
    if v < 0 {
        proof {
            reveal_strlit("-");
            assert("-"@ =~= seq!['-']);
        }
        out.append("-");
        append_u64(out, (-v) as u64);
        proof {
            assert(final(out)@ =~= old(out)@ + spec_i64_dec(v as int));
        }
    } else {
        append_u64(out, v as u64);
    }
}

/// Append a millisecond count as seconds with three fractional digits.
pub fn append_ms(out: &mut String, ms: i64)
    requires
        ms != i64::MIN,
    ensures
        final(out)@ == old(out)@ + spec_ms_dec(ms as int),
{
    let a: i64 = if ms < 0 {
        -ms
    } else {
        ms
    };
    if ms < 0 {
        proof {
            reveal_strlit("-");
            assert("-"@ =~= seq!['-']);
        }
        out.append("-");
    }
    append_u64(out, (a / 1000) as u64);
    proof {
        reveal_strlit(".");
        assert("."@ =~= seq!['.']);
    }
    out.append(".");
    let r: u64 = (a % 1000) as u64;
    append_digit(out, r / 100);
    append_digit(out, (r / 10) % 10);
    append_digit(out, r % 10);
    proof {
        assert(final(out)@ =~= old(out)@ + spec_ms_dec(ms as int));
    }
}

/// The canonical decimal text of `n`, as a string.
pub fn u64_to_string(n: u64) -> (r: String)
    ensures
        r@ == spec_u64_dec(n as nat),
{
    let mut out = String::new();
    append_u64(&mut out, n);
    proof {
        assert(out@ =~= spec_u64_dec(n as nat));
    }
    out
}

/// How many leading characters of `s` are decimal digits.
pub open spec fn digits_len(s: Seq<char>) -> int
    decreases s.len(),
{
    if s.len() == 0 || !is_digit(s[0]) {
        0
    } else {
        1 + digits_len(s.skip(1))
    }
}

/// The value of the first `k` digit characters of `s`.
pub open spec fn digits_val(s: Seq<char>, k: int) -> int
    decreases k,
{
    if k <= 0 {
        0
    } else {
        digits_val(s, k - 1) * 10 + digit_val(s[k - 1])
    }
}

/// Strict parse of a canonical `u64`: at least one digit, no leading zero,
/// value in range; returns the value and the remaining characters.
pub open spec fn spec_parse_u64(s: Seq<char>) -> Option<(u64, Seq<char>)> {
    let k = digits_len(s);
    if k == 0 {
        None
    } else if s[0] == '0' && k > 1 {
        None
    } else if digits_val(s, k) > u64::MAX {
        None
    } else {
        Some((digits_val(s, k) as u64, s.skip(k)))
    }
}

/// `digits_len` counts exactly the leading digits.
pub proof fn lemma_digits_len_is(s: Seq<char>, k: int)
    requires
        0 <= k <= s.len(),
        forall|m: int| 0 <= m < k ==> is_digit(#[trigger] s[m]),
        k == s.len() || !is_digit(s[k]),
    ensures
        digits_len(s) == k,
    decreases k,
{
    if k > 0 {
        lemma_digits_len_is(s.skip(1), k - 1);
    }
}

/// Everything `digits_len` counts is a digit, and the first uncounted
/// character, if any, is not.
pub proof fn lemma_digits_len_bounds(s: Seq<char>)
    ensures
        0 <= digits_len(s) <= s.len(),
        forall|m: int| 0 <= m < digits_len(s) ==> is_digit(#[trigger] s[m]),
        digits_len(s) == s.len() || !is_digit(s[digits_len(s)]),
    decreases s.len(),
{
    if s.len() > 0 && is_digit(s[0]) {
        lemma_digits_len_bounds(s.skip(1));
        assert forall|m: int| 0 <= m < digits_len(s) implies is_digit(#[trigger] s[m]) by {
            if m >= 1 {
                assert(is_digit(s.skip(1)[m - 1]));
            }
        }
        if digits_len(s) < s.len() {
            assert(s[digits_len(s)] == s.skip(1)[digits_len(s) - 1]);
        }
    }
}

/// Digit values are non-negative, so a longer digit prefix never has a
/// smaller value.
pub proof fn lemma_digits_val_mono(s: Seq<char>, k1: int, k2: int)
    requires
        0 <= k1 <= k2 <= s.len(),
        forall|m: int| 0 <= m < k2 ==> is_digit(#[trigger] s[m]),
    ensures
        0 <= digits_val(s, k1) <= digits_val(s, k2),
    decreases k2,
{
    if k2 > 0 {
        if k1 == k2 {
            lemma_digits_val_mono(s, k1 - 1, k2 - 1);
        } else {
            lemma_digits_val_mono(s, k1, k2 - 1);
        }
    }
}

/// The digit characters written for `n` read back as the value `n`.
proof fn lemma_digits_val_of_dec(n: nat, s: Seq<char>)
    requires
        spec_u64_dec(n).len() <= s.len(),
        forall|m: int| 0 <= m < spec_u64_dec(n).len() ==> s[m] == spec_u64_dec(n)[m],
    ensures
        digits_val(s, spec_u64_dec(n).len() as int) == n,
    decreases n,
{
    let e = spec_u64_dec(n);
    if n < 10 {
        assert(digits_val(s, 0) == 0);
        assert(digits_val(s, 1) == digit_val(s[0]));
        assert(s[0] == digit_char(n as int));
    } else {
        lemma_u64_dec_digits(n / 10);
        lemma_digits_val_of_dec(n / 10, s);
        assert(e[e.len() - 1] == digit_char((n % 10) as int));
        assert(digits_val(s, e.len() as int) == digits_val(s, e.len() - 1) * 10 + digit_val(
            s[e.len() - 1],
        ));
    }
}

/// Parsing the canonical digits of `n`, followed by anything that does not
/// begin with a digit, yields `n` and the rest.
pub proof fn lemma_parse_u64_dec(n: u64, rest: Seq<char>)
    requires
        rest.len() == 0 || !is_digit(rest[0]),
    ensures
        spec_parse_u64(spec_u64_dec(n as nat) + rest) == Some((n, rest)),
{
    let e = spec_u64_dec(n as nat);
    let s = e + rest;
    lemma_u64_dec_digits(n as nat);
    lemma_digits_len_is(s, e.len() as int);
    lemma_digits_val_of_dec(n as nat, s);
    assert(s.skip(e.len() as int) =~= rest);
}

/// Strict parse of a canonical `i32`: an optional minus sign for a strictly
/// negative value, then canonical digits, value in range.
pub open spec fn spec_parse_i32(s: Seq<char>) -> Option<(i32, Seq<char>)> {
    if s.len() > 0 && s[0] == '-' {
        match spec_parse_u64(s.skip(1)) {
            Some((v, rest)) => if 1 <= v <= i32::MAX as int + 1 {
                Some(((-(v as int)) as i32, rest))
            } else {
                None
            },
            None => None,
        }
    } else {
        match spec_parse_u64(s) {
            Some((v, rest)) => if v <= i32::MAX {
                Some((v as i32, rest))
            } else {
                None
            },
            None => None,
        }
    }
}

/// Strict parse of a millisecond count written as seconds with exactly three
/// fractional digits: optional minus sign for a strictly negative value,
/// canonical whole seconds, a point, three digits and no fourth.
pub open spec fn spec_parse_ms(s: Seq<char>) -> Option<(i64, Seq<char>)> {
    let neg = s.len() > 0 && s[0] == '-';
    let t = if neg {
        s.skip(1)
    } else {
        s
    };
    match spec_parse_u64(t) {
        Some((q, r1)) => if r1.len() >= 4 && r1[0] == '.' && is_digit(r1[1]) && is_digit(r1[2])
            && is_digit(r1[3]) && (r1.len() == 4 || !is_digit(r1[4])) {
            let v = q * 1000 + digits_val(r1.skip(1), 3);
            if v > i64::MAX {
                None
            } else if neg && v == 0 {
                None
            } else {
                Some(((if neg { -v } else { v }) as i64, r1.skip(4)))
            }
        } else {
            None
        },
        None => None,
    }
}

/// Reading back the digit character of a digit value.
pub proof fn lemma_digit_roundtrip(d: int)
    requires
        0 <= d <= 9,
    ensures
        digit_val(digit_char(d)) == d,
        is_digit(digit_char(d)),
{
}

/// Parsing the canonical text of an `i32`, followed by anything that does
/// not begin with a digit, yields the value and the rest.
pub proof fn lemma_parse_i32_dec(v: i32, rest: Seq<char>)
    requires
        rest.len() == 0 || !is_digit(rest[0]),
    ensures
        spec_parse_i32(spec_i64_dec(v as int) + rest) == Some((v, rest)),
{
    let s = spec_i64_dec(v as int) + rest;
    if v < 0 {
        let m = (-(v as int)) as u64;
        lemma_parse_u64_dec(m, rest);
        lemma_u64_dec_digits(m as nat);
        assert(s[0] == '-');
        assert(s.skip(1) =~= spec_u64_dec(m as nat) + rest);
    } else {
        lemma_parse_u64_dec(v as u64, rest);
        lemma_u64_dec_digits(v as nat);
        assert(s =~= spec_u64_dec(v as nat) + rest);
        assert(s[0] != '-');
    }
}

/// Parsing the fixed-point text of a millisecond count, followed by anything
/// that does not begin with a digit, yields the count and the rest.
pub proof fn lemma_parse_ms_dec(ms: i64, rest: Seq<char>)
    requires
        ms != i64::MIN,
        rest.len() == 0 || !is_digit(rest[0]),
    ensures
        spec_parse_ms(spec_ms_dec(ms as int) + rest) == Some((ms, rest)),
{
    let a = if ms < 0 {
        -(ms as int)
    } else {
        ms as int
    };
    let q = (a / 1000) as u64;
    let f = a % 1000;
    let frac = spec_frac3(f);
    let tail = seq!['.'] + frac + rest;
    let s = spec_ms_dec(ms as int) + rest;
    lemma_digit_roundtrip(f / 100);
    lemma_digit_roundtrip((f / 10) % 10);
    lemma_digit_roundtrip(f % 10);
    assert(tail[0] == '.');
    lemma_parse_u64_dec(q, tail);
    lemma_u64_dec_digits(q as nat);
    let t = spec_u64_dec(q as nat) + tail;
    assert(spec_parse_u64(t) == Some((q, tail)));
    assert(tail[1] == digit_char(f / 100) && tail[2] == digit_char((f / 10) % 10) && tail[3]
        == digit_char(f % 10));
    assert(tail.len() == 4 + rest.len());
    assert(forall|i: int| 0 <= i < rest.len() ==> tail[4 + i] == #[trigger] rest[i]);
    assert(digits_val(tail.skip(1), 3) == f) by {
        let d = tail.skip(1);
        assert(d[0] == digit_char(f / 100) && d[1] == digit_char((f / 10) % 10) && d[2]
            == digit_char(f % 10));
        assert(digits_val(d, 0) == 0);
        assert(digits_val(d, 1) == digit_val(d[0]));
        assert(digits_val(d, 2) == digits_val(d, 1) * 10 + digit_val(d[1]));
        assert(digits_val(d, 3) == digits_val(d, 2) * 10 + digit_val(d[2]));
    }
    assert(q * 1000 + f == a);
    if ms < 0 {
        assert(s[0] == '-');
        assert(s.skip(1) =~= t);
        assert(tail.skip(4) =~= rest);
        assert(a > 0);
    } else {
        assert(s =~= t);
        assert(s[0] != '-');
        assert(tail.skip(4) =~= rest);
    }
}

/// Whether `c` is a decimal digit.
pub fn is_digit_char(c: char) -> (r: bool)
    ensures
        r == is_digit(c),
{
    c >= '0' && c <= '9'
}

/// Parse canonical decimal digits starting at character position `i` of `s`,
/// as `spec_parse_u64` says of the characters from `i` on.
pub fn parse_u64_at(s: &str, i: usize) -> (r: Option<(u64, usize)>)
    requires
        i <= s@.len(),
    ensures
        match r {
            Some((v, j)) => i <= j <= s@.len() && spec_parse_u64(s@.skip(i as int)) == Some(
                (v, s@.skip(j as int)),
            ),
            None => spec_parse_u64(s@.skip(i as int)) is None,
        },
{
    let ghost tail = s@.skip(i as int);
    let n = s.unicode_len();
    let mut j: usize = i;
    let mut acc: u64 = 0;
    loop
        invariant_except_break
            i <= j <= n,
            n == s@.len(),
            tail == s@.skip(i as int),
            forall|m: int| 0 <= m < j - i ==> is_digit(#[trigger] tail[m]),
            acc == digits_val(tail, j - i),
        ensures
            i <= j <= n,
            n == s@.len(),
            forall|m: int| 0 <= m < j - i ==> is_digit(#[trigger] tail[m]),
            acc == digits_val(tail, j - i),
            j == n || !is_digit(tail[j - i]),
        decreases n - j,
    {
        if j >= n {
            break ;
        }
        let c = s.get_char(j);
        proof {
            assert(tail[j - i] == s@[j as int]);
        }
        if !is_digit_char(c) {
            break ;
        }
        let d: u64 = (c as u32 as u64) - 48;
        proof {
            assert(digit_val(tail[j - i]) == d);
            assert(digits_val(tail, j - i + 1) == digits_val(tail, j - i) * 10 + digit_val(
                tail[j - i],
            ));
        }
        if acc > (u64::MAX - d) / 10 {
            proof {
                lemma_digits_len_bounds(tail);
                assert(digits_len(tail) >= j - i + 1) by {
                    lemma_digits_len_is(
                        tail.subrange(0, j - i + 1),
                        j - i + 1,
                    );
                    assert(forall|m: int|
                        0 <= m < j - i + 1 ==> tail.subrange(0, j - i + 1)[m] == #[trigger] tail[m]);
                    lemma_digits_prefix(tail, j - i + 1);
                }
                lemma_digits_val_mono(tail, j - i + 1, digits_len(tail));
                assert(digits_val(tail, j - i + 1) > u64::MAX);
            }
            return None;
        }
        acc = acc * 10 + d;
        j = j + 1;
    }
    let k = j - i;
    proof {
        lemma_digits_len_is(tail, k as int);
    }
    if k == 0 {
        return None;
    }
    if k > 1 && s.get_char(i) == '0' {
        proof {
            assert(tail[0] == s@[i as int]);
        }
        return None;
    }
    proof {
        assert(tail[0] == s@[i as int]);
        assert(s@.skip(j as int) =~= tail.skip(k as int));
    }
    Some((acc, j))
}

/// A digit prefix of a sequence keeps `digits_len` at least that long.
proof fn lemma_digits_prefix(s: Seq<char>, k: int)
    requires
        0 <= k <= s.len(),
        forall|m: int| 0 <= m < k ==> is_digit(#[trigger] s[m]),
    ensures
        digits_len(s) >= k,
    decreases k,
{
    lemma_digits_len_bounds(s);
    if k > 0 {
        assert(is_digit(s[0]));
        assert forall|m: int| 0 <= m < k - 1 implies is_digit(#[trigger] s.skip(1)[m]) by {
            assert(s.skip(1)[m] == s[m + 1]);
        }
        lemma_digits_prefix(s.skip(1), k - 1);
        assert(digits_len(s) == 1 + digits_len(s.skip(1)));
    }
}

/// Parse a canonical `i32` starting at position `i`, as `spec_parse_i32`
/// says.
pub fn parse_i32_at(s: &str, i: usize) -> (r: Option<(i32, usize)>)
    requires
        i <= s@.len(),
    ensures
        match r {
            Some((v, j)) => i <= j <= s@.len() && spec_parse_i32(s@.skip(i as int)) == Some(
                (v, s@.skip(j as int)),
            ),
            None => spec_parse_i32(s@.skip(i as int)) is None,
        },
{
    let n = s.unicode_len();
    if i < n && s.get_char(i) == '-' {
        proof {
            assert(s@.skip(i as int)[0] == s@[i as int]);
            assert(s@.skip(i as int).skip(1) =~= s@.skip(i as int + 1));
        }
        match parse_u64_at(s, i + 1) {
            Some((v, j)) => {
                if 1 <= v && v <= 0x8000_0000u64 {
                    let w: i32 = if v == 0x8000_0000u64 {
                        i32::MIN
                    } else {
                        -((v as i32))
                    };
                    Some((w, j))
                } else {
                    None
                }
            },
            None => None,
        }
    } else {
        proof {
            if i < n {
                assert(s@.skip(i as int)[0] == s@[i as int]);
            }
        }
        match parse_u64_at(s, i) {
            Some((v, j)) => {
                if v <= i32::MAX as u64 {
                    Some((v as i32, j))
                } else {
                    None
                }
            },
            None => None,
        }
    }
}

/// Parse a fixed-point millisecond count starting at position `i`, as
/// `spec_parse_ms` says.
pub fn parse_ms_at(s: &str, i: usize) -> (r: Option<(i64, usize)>)
    requires
        i <= s@.len(),
    ensures
        match r {
            Some((v, j)) => i <= j <= s@.len() && spec_parse_ms(s@.skip(i as int)) == Some(
                (v, s@.skip(j as int)),
            ),
            None => spec_parse_ms(s@.skip(i as int)) is None,
        },
{
    let n = s.unicode_len();
    let neg = i < n && s.get_char(i) == '-';
    let start = if neg {
        i + 1
    } else {
        i
    };
    proof {
        if i < n {
            assert(s@.skip(i as int)[0] == s@[i as int]);
        }
        if neg {
            assert(s@.skip(i as int).skip(1) =~= s@.skip(i as int + 1));
        }
    }
    let (q, j1) = match parse_u64_at(s, start) {
        Some(p) => p,
        None => {
            return None;
        },
    };
    let ghost r1 = s@.skip(j1 as int);
    if n - j1 < 4 {
        return None;
    }
    if s.get_char(j1) != '.' {
        proof {
            assert(r1[0] == s@[j1 as int]);
        }
        return None;
    }
    let c1 = s.get_char(j1 + 1);
    let c2 = s.get_char(j1 + 2);
    let c3 = s.get_char(j1 + 3);
    proof {
        assert(r1[0] == s@[j1 as int]);
        assert(r1[1] == s@[j1 as int + 1]);
        assert(r1[2] == s@[j1 as int + 2]);
        assert(r1[3] == s@[j1 as int + 3]);
        if r1.len() > 4 {
            assert(r1[4] == s@[j1 as int + 4]);
        }
    }
    if !is_digit_char(c1) || !is_digit_char(c2) || !is_digit_char(c3) {
        return None;
    }
    if j1 + 4 < n {
        let c4 = s.get_char(j1 + 4);
        if is_digit_char(c4) {
            return None;
        }
    }
    let d1: u64 = (c1 as u32 as u64) - 48;
    let d2: u64 = (c2 as u32 as u64) - 48;
    let d3: u64 = (c3 as u32 as u64) - 48;
    let frac: u64 = d1 * 100 + d2 * 10 + d3;
    proof {
        let d = r1.skip(1);
        assert(d[0] == r1[1] && d[1] == r1[2] && d[2] == r1[3]);
        assert(digits_val(d, 0) == 0);
        assert(digits_val(d, 1) == digit_val(d[0]));
        assert(digits_val(d, 2) == digits_val(d, 1) * 10 + digit_val(d[1]));
        assert(digits_val(d, 3) == digits_val(d, 2) * 10 + digit_val(d[2]));
        assert(digits_val(d, 3) == frac);
    }
    if q > (i64::MAX as u64 - frac) / 1000 {
        return None;
    }
    let v: i64 = (q * 1000 + frac) as i64;
    if neg && v == 0 {
        return None;
    }
    let w: i64 = if neg {
        -v
    } else {
        v
    };
    proof {
        assert(s@.skip(j1 as int + 4) =~= r1.skip(4));
    }
    Some((w, j1 + 4))
}

} // verus!
