//! Decimal strings on the wire, fixed-point integers inside.
//!
//! Every price, size and balance crosses the wire as a decimal string such
//! as `"96.2"`.  The strategy works on `u64` values scaled by
//! [`crate::PRICE_SCALE`] (eight decimal places), so this module gives the
//! exact grammar of the accepted strings, the value they denote, and
//! verified conversions in both directions.

use vstd::prelude::*;
use vstd::string::StrSliceExecFns;
use vstd::string::StringExecFns;

verus! {

/// Greatest number of digits accepted before the decimal point.  It keeps
/// every representable value below `u64::MAX` once scaled.
pub const MAX_INT_DIGITS: usize = 11;

/// Greatest number of digits accepted after the decimal point: the scale
/// carries exactly eight.
pub const MAX_FRAC_DIGITS: usize = 8;

/// Greatest number of digits of a plain (unscaled) integer string, as used
/// for millisecond timestamps.
pub const MAX_U64_DIGITS: usize = 19;

pub open spec fn is_digit(c: char) -> bool {
    '0' <= c && c <= '9'
}

pub open spec fn digit_val(c: char) -> int {
    c as u32 - '0' as u32
}

pub open spec fn all_digits(s: Seq<char>) -> bool {
    forall|i: int| 0 <= i < s.len() ==> is_digit(#[trigger] s[i])
}

/// Value of a digit string, most significant digit first.
pub open spec fn digits_val(s: Seq<char>) -> int
    decreases s.len(),
{
    if s.len() == 0 {
        0
    } else {
        digits_val(s.drop_last()) * 10 + digit_val(s.last())
    }
}

pub open spec fn pow10(e: nat) -> int
    decreases e,
{
    if e == 0 {
        1
    } else {
        10 * pow10((e - 1) as nat)
    }
}

/// First position of `c` in `s`, or `s.len()` if absent.
pub open spec fn first_pos(s: Seq<char>, c: char) -> int
    decreases s.len(),
{
    if s.len() == 0 {
        0
    } else if s[0] == c {
        0
    } else {
        1 + first_pos(s.drop_first(), c)
    }
}

/// The value, scaled by `10^MAX_FRAC_DIGITS`, that a decimal string
/// denotes: digits, optionally a dot and one to eight further digits.
/// `None` for anything outside that grammar, including strings whose
/// integer part is too long to scale into a `u64`.
pub open spec fn dec_spec(s: Seq<char>) -> Option<int> {
    let d = first_pos(s, '.');
    if d == s.len() {
        if 1 <= s.len() <= MAX_INT_DIGITS && all_digits(s) {
            Some(digits_val(s) * pow10(MAX_FRAC_DIGITS as nat))
        } else {
            None
        }
    } else {
        let ip = s.subrange(0, d);
        let fp = s.subrange(d + 1, s.len() as int);
        if 1 <= ip.len() <= MAX_INT_DIGITS && all_digits(ip) && 1 <= fp.len() <= MAX_FRAC_DIGITS
            && all_digits(fp) {
            Some(
                digits_val(ip) * pow10(MAX_FRAC_DIGITS as nat) + digits_val(fp) * pow10(
                    (MAX_FRAC_DIGITS - fp.len()) as nat,
                ),
            )
        } else {
            None
        }
    }
}

/// Value of a plain integer string of at most `MAX_U64_DIGITS` digits,
/// as used for millisecond timestamps; `None` outside that grammar.
pub open spec fn int_spec(s: Seq<char>) -> Option<int> {
    if 1 <= s.len() <= MAX_U64_DIGITS && all_digits(s) {
        Some(digits_val(s))
    } else {
        None
    }
}

pub proof fn lemma_digits_val_bound(s: Seq<char>)
    requires
        all_digits(s),
    ensures
        0 <= digits_val(s) < pow10(s.len() as nat),
    decreases s.len(),
{
    if s.len() == 0 {
    } else {
        assert(all_digits(s.drop_last())) by {
            assert(forall|i: int|
                0 <= i < s.len() - 1 ==> s.drop_last()[i] == #[trigger] s[i]);
        }
        lemma_digits_val_bound(s.drop_last());
        assert(is_digit(s.last()));
        assert(0 <= digit_val(s.last()) <= 9);
    }
}

pub proof fn lemma_pow10_pos(a: nat)
    ensures
        pow10(a) >= 1,
    decreases a,
{
    if a > 0 {
        lemma_pow10_pos((a - 1) as nat);
    }
}

pub proof fn lemma_pow10_monotone(a: nat, b: nat)
    requires
        a <= b,
    ensures
        1 <= pow10(a) <= pow10(b),
    decreases b,
{
    lemma_pow10_pos(a);
    if a < b {
        lemma_pow10_monotone(a, (b - 1) as nat);
    }
}

/// Where the first occurrence of `c` stands in `s`: within bounds, on `c`,
/// and past no earlier `c`.
pub proof fn lemma_first_pos(s: Seq<char>, c: char)
    ensures
        0 <= first_pos(s, c) <= s.len(),
        first_pos(s, c) < s.len() ==> s[first_pos(s, c)] == c,
        forall|i: int| 0 <= i < first_pos(s, c) ==> s[i] != c,
    decreases s.len(),
{
    if s.len() == 0 {
    } else if s[0] == c {
    } else {
        lemma_first_pos(s.drop_first(), c);
        assert(forall|i: int|
            1 <= i < s.len() ==> s.drop_first()[i - 1] == #[trigger] s[i]);
    }
}

pub proof fn lemma_digits_val_snoc(t: Seq<char>, c: char)
    ensures
        digits_val(t.push(c)) == digits_val(t) * 10 + digit_val(c),
{
    assert(t.push(c).drop_last() =~= t);
    assert(t.push(c).last() == c);
}

pub proof fn lemma_pow10_mul(a: nat, b: nat)
    ensures
        pow10(a) * pow10(b) == pow10(a + b),
    decreases a,
{
    if a == 0 {
    } else {
        lemma_pow10_mul((a - 1) as nat, b);
        assert(pow10(a) * pow10(b) == 10 * (pow10((a - 1) as nat) * pow10(b)))
            by (nonlinear_arith)
            requires
                pow10(a) == 10 * pow10((a - 1) as nat),
        ;
    }
}

/// One past the last position of the digit run that starts at `start`.
pub open spec fn run_end(s: Seq<char>, start: int) -> int
    decreases s.len() - start,
{
    if start < 0 || start >= s.len() {
        start
    } else if !is_digit(s[start]) {
        start
    } else {
        run_end(s, start + 1)
    }
}

pub proof fn lemma_run_end_props(s: Seq<char>, start: int)
    requires
        0 <= start <= s.len(),
    ensures
        start <= run_end(s, start) <= s.len(),
        forall|i: int| start <= i < run_end(s, start) ==> is_digit(#[trigger] s[i]),
        run_end(s, start) < s.len() ==> !is_digit(s[run_end(s, start)]),
    decreases s.len() - start,
{
    if start < s.len() && is_digit(s[start]) {
        lemma_run_end_props(s, start + 1);
    }
}

pub proof fn lemma_run_end_at(s: Seq<char>, start: int, k: int)
    requires
        0 <= start <= k <= s.len(),
        forall|i: int| start <= i < k ==> is_digit(#[trigger] s[i]),
        k == s.len() || !is_digit(s[k]),
    ensures
        run_end(s, start) == k,
    decreases k - start,
{
    if start < k {
        lemma_run_end_at(s, start + 1, k);
    }
}

/// Scans the digit run of `s` beginning at `start`.  Yields its value and
/// the position one past its last digit; nothing if the run is empty or
/// holds more than `max` digits.
pub fn scan_digits(s: &str, start: usize, max: usize) -> (r: Option<(u64, usize)>)
    requires
        start <= s@.len(),
        max <= MAX_U64_DIGITS,
    ensures
        ({
            let e = run_end(s@, start as int);
            match r {
                Some(p) => p.1 == e && start < e && e - start <= max && p.0 == digits_val(
                    s@.subrange(start as int, e),
                ),
                None => e == start || e - start > max,
            }
        }),
{
    proof {
        lemma_run_end_props(s@, start as int);
    }
    let n = s.unicode_len();
    let mut i: usize = start;
    let mut acc: u64 = 0;
    loop
        invariant
            start <= i <= n,
            n == s@.len(),
            i - start <= max,
            max <= MAX_U64_DIGITS,
            forall|j: int| start <= j < i ==> is_digit(#[trigger] s@[j]),
            acc == digits_val(s@.subrange(start as int, i as int)),
            acc < pow10((i - start) as nat),
        decreases n - i,
    {
        if i == n || !char_is_digit(s.get_char(i)) {
            proof {
                lemma_run_end_at(s@, start as int, i as int);
            }
            if i == start {
                return None;
            }
            return Some((acc, i));
        }
        if i - start == max {
            proof {
                assert(forall|j: int|
                    start <= j < i + 1 ==> is_digit(#[trigger] s@[j]));
                lemma_run_end_props(s@, i as int + 1);
                lemma_run_end_at(s@, start as int, run_end(s@, i as int + 1));
            }
            return None;
        }
        let c = s.get_char(i);
        let d: u64 = (c as u32 - 48) as u64;
        proof {
            assert(pow10(19) == 10_000_000_000_000_000_000) by {
                reveal_with_fuel(pow10, 21);
            }
            lemma_pow10_monotone(((i - start) + 1) as nat, MAX_U64_DIGITS as nat);
            assert(pow10(((i - start) + 1) as nat) == 10 * pow10((i - start) as nat));
            lemma_digits_val_snoc(s@.subrange(start as int, i as int), s@[i as int]);
            assert(s@.subrange(start as int, i as int + 1) =~= s@.subrange(
                start as int,
                i as int,
            ).push(s@[i as int]));
        }
        acc = acc * 10 + d;
        i = i + 1;
    }
}

/// Whether `c` is one of the ten decimal digits.
pub fn char_is_digit(c: char) -> (r: bool)
    ensures
        r == is_digit(c),
{
    let u = c as u32;
    48 <= u && u <= 57
}

/// Exponentiation for the small scale adjustments of the fraction part.
pub fn pow10_exec(e: usize) -> (r: u64)
    requires
        e <= MAX_FRAC_DIGITS,
    ensures
        r == pow10(e as nat),
{
    proof {
        assert(pow10(8) == 100_000_000) by {
            reveal_with_fuel(pow10, 9);
        }
    }
    let mut r: u64 = 1;
    let mut k: usize = 0;
    while k < e
        invariant
            k <= e <= MAX_FRAC_DIGITS,
            r == pow10(k as nat),
            pow10(8) == 100_000_000,
        decreases e - k,
    {
        proof {
            lemma_pow10_monotone((k + 1) as nat, MAX_FRAC_DIGITS as nat);
            assert(pow10((k + 1) as nat) == 10 * pow10(k as nat));
        }
        r = r * 10;
        k = k + 1;
    }
    r
}

/// Reads a decimal string into the scaled fixed-point representation:
/// exactly the strings and values of `dec_spec`.
pub fn parse_scaled(s: &str) -> (r: Option<u64>)
    ensures
        r matches Some(v) ==> dec_spec(s@) == Some(v as int),
        r is None ==> dec_spec(s@) is None,
{
    proof {
        lemma_first_pos(s@, '.');
        assert(pow10(11) == 100_000_000_000) by {
            reveal_with_fuel(pow10, 12);
        }
        assert(pow10(8) == 100_000_000) by {
            reveal_with_fuel(pow10, 9);
        }
    }
    let n = s.unicode_len();
    let ghost d = first_pos(s@, '.');
    match scan_digits(s, 0, MAX_INT_DIGITS) {
        None => {
            proof {
                lemma_run_end_props(s@, 0);
                let e = run_end(s@, 0);
                if e == 0 {
                    // Empty integer part: either the string is empty, or it
                    // opens with a dot (empty part) or another non-digit.
                    if s@.len() > 0 {
                        assert(!is_digit(s@[0]));
                        if s@[0] == '.' {
                            assert(d == 0);
                        } else if d == s@.len() {
                            assert(!all_digits(s@));
                        } else {
                            assert(d > 0);
                            assert(s@.subrange(0, d)[0] == s@[0]);
                            assert(!all_digits(s@.subrange(0, d)));
                        }
                    }
                } else {
                    // More than eleven leading digits: whether or not a dot
                    // follows, the integer part is too long.
                    assert(forall|i: int| 0 <= i < e ==> is_digit(#[trigger] s@[i]));
                    assert(e > MAX_INT_DIGITS);
                    assert(d >= e) by {
                        if d < e {
                            assert(is_digit(s@[d]));
                            assert(s@[d] == '.');
                        }
                    }
                    if d < s@.len() {
                        assert(s@.subrange(0, d).len() > MAX_INT_DIGITS);
                    }
                }
            }
            None
        },
        Some((ival, end)) => {
            proof {
                lemma_run_end_props(s@, 0);
                assert(forall|i: int| 0 <= i < end ==> is_digit(#[trigger] s@[i]));
                assert(all_digits(s@.subrange(0, end as int))) by {
                    assert(forall|i: int|
                        0 <= i < end ==> s@.subrange(0, end as int)[i] == #[trigger] s@[
                        i]);
                }
                lemma_digits_val_bound(s@.subrange(0, end as int));
                lemma_pow10_monotone((end - 0) as nat, MAX_INT_DIGITS as nat);
            }
            if end == n {
                // Digits through the whole string: the dot-free form.
                proof {
                    assert(d == s@.len()) by {
                        if d < s@.len() {
                            assert(is_digit(s@[d]));
                            assert(s@[d] == '.');
                        }
                    }
                    assert(s@.subrange(0, n as int) =~= s@);
                    assert(all_digits(s@));
                }
                Some(ival * 100_000_000)
            } else if s.get_char(end) == '.' {
                proof {
                    assert(d == end) by {
                        if d < end {
                            assert(is_digit(s@[d]));
                            assert(s@[d] == '.');
                        }
                        if d > end {
                            assert(s@[end as int] != '.');
                        }
                    }
                }
                match scan_digits(s, end + 1, MAX_FRAC_DIGITS) {
                    None => {
                        proof {
                            let e2 = run_end(s@, end as int + 1);
                            lemma_run_end_props(s@, end as int + 1);
                            let fp = s@.subrange(d + 1, s@.len() as int);
                            if e2 == end + 1 {
                                if fp.len() > 0 {
                                    assert(!is_digit(fp[0]));
                                }
                            } else {
                                if fp.len() <= MAX_FRAC_DIGITS {
                                    assert(forall|i: int|
                                        d + 1 <= i < s@.len() ==> is_digit(
                                            #[trigger] s@[i],
                                        )) by {
                                        assert(forall|i: int|
                                            d + 1 <= i < s@.len() ==> s@[i] == fp[
                                            i - (d + 1)]);
                                    }
                                    lemma_run_end_at(s@, end as int + 1, s@.len() as int);
                                }
                            }
                        }
                        None
                    },
                    Some((fval, fend)) => {
                        if fend == n {
                            let flen = fend - (end + 1);
                            let scale = pow10_exec(MAX_FRAC_DIGITS - flen);
                            proof {
                                let fp = s@.subrange(d + 1, s@.len() as int);
                                assert(fp =~= s@.subrange(end as int + 1, fend as int));
                                lemma_run_end_props(s@, end as int + 1);
                                assert(forall|i: int|
                                    end + 1 <= i < fend ==> is_digit(#[trigger] s@[i]));
                                assert(all_digits(fp)) by {
                                    assert(forall|i: int|
                                        0 <= i < fp.len() ==> fp[i] == #[trigger] s@[i + (
                                        d + 1)]);
                                }
                                lemma_digits_val_bound(fp);
                                lemma_pow10_pos((MAX_FRAC_DIGITS - flen) as nat);
                                lemma_pow10_mul(
                                    flen as nat,
                                    (MAX_FRAC_DIGITS - flen) as nat,
                                );
                                assert(fval * pow10((MAX_FRAC_DIGITS - flen) as nat) < pow10(
                                    MAX_FRAC_DIGITS as nat,
                                )) by (nonlinear_arith)
                                    requires
                                        0 <= fval < pow10(flen as nat),
                                        pow10((MAX_FRAC_DIGITS - flen) as nat) >= 1,
                                        pow10(flen as nat) * pow10(
                                            (MAX_FRAC_DIGITS - flen) as nat,
                                        ) == pow10(MAX_FRAC_DIGITS as nat),
                                ;
                                assert(ival * 100_000_000 <= (pow10(MAX_INT_DIGITS as nat)
                                    - 1) * 100_000_000) by (nonlinear_arith)
                                    requires
                                        0 <= ival <= pow10(MAX_INT_DIGITS as nat) - 1,
                                ;
                            }
                            Some(ival * 100_000_000 + fval * scale)
                        } else {
                            // Junk after the fraction digits.
                            proof {
                                let fp = s@.subrange(d + 1, s@.len() as int);
                                lemma_run_end_props(s@, end as int + 1);
                                assert(!is_digit(s@[fend as int]));
                                assert(fp[fend - (d + 1)] == s@[fend as int]);
                            }
                            None
                        }
                    },
                }
            } else {
                // A character that neither extends the digits nor opens a
                // fraction.
                proof {
                    assert(!is_digit(s@[end as int]) && s@[end as int] != '.');
                    assert(d > end) by {
                        if d < end {
                            assert(is_digit(s@[d]));
                            assert(s@[d] == '.');
                        }
                        if d == end {
                            assert(s@[d] == '.');
                        }
                    }
                    assert(s@.subrange(0, d)[end as int] == s@[end as int]);
                    assert(!all_digits(s@.subrange(0, d)));
                }
                None
            }
        },
    }
}

/// Reads a plain integer string, as used for millisecond timestamps:
/// exactly the strings and values of `int_spec`.
pub fn parse_u64(s: &str) -> (r: Option<u64>)
    ensures
        r matches Some(v) ==> int_spec(s@) == Some(v as int),
        r is None ==> int_spec(s@) is None,
{
    let n = s.unicode_len();
    match scan_digits(s, 0, MAX_U64_DIGITS) {
        None => {
            proof {
                lemma_run_end_props(s@, 0);
                let e = run_end(s@, 0);
                if e == 0 {
                    if s@.len() > 0 {
                        assert(!is_digit(s@[0]));
                    }
                } else {
                    assert(is_digit(s@[0]));
                    assert(e > MAX_U64_DIGITS);
                }
            }
            None
        },
        Some((v, end)) => {
            if end == n {
                proof {
                    lemma_run_end_props(s@, 0);
                    assert(forall|i: int| 0 <= i < end ==> is_digit(#[trigger] s@[i]));
                    assert(s@.subrange(0, n as int) =~= s@);
                    assert(all_digits(s@));
                }
                Some(v)
            } else {
                proof {
                    lemma_run_end_props(s@, 0);
                    assert(!is_digit(s@[end as int]));
                }
                None
            }
        },
    }
}

pub open spec fn digit_char(d: int) -> char {
    if d == 0 {
        '0'
    } else if d == 1 {
        '1'
    } else if d == 2 {
        '2'
    } else if d == 3 {
        '3'
    } else if d == 4 {
        '4'
    } else if d == 5 {
        '5'
    } else if d == 6 {
        '6'
    } else if d == 7 {
        '7'
    } else if d == 8 {
        '8'
    } else {
        '9'
    }
}

pub open spec fn hex_char(d: int) -> char {
    if d < 10 {
        digit_char(d)
    } else if d == 10 {
        'a'
    } else if d == 11 {
        'b'
    } else if d == 12 {
        'c'
    } else if d == 13 {
        'd'
    } else if d == 14 {
        'e'
    } else {
        'f'
    }
}

/// The decimal rendering of `n`, most significant digit first, no sign and
/// no leading zeros.
pub open spec fn dec_digits(n: nat) -> Seq<char>
    decreases n,
{
    if n < 10 {
        seq![digit_char(n as int)]
    } else {
        dec_digits(n / 10).push(digit_char((n % 10) as int))
    }
}

/// The lower-case hexadecimal rendering of `n`, no leading zeros.
pub open spec fn hex_digits(n: nat) -> Seq<char>
    decreases n,
{
    if n < 16 {
        seq![hex_char(n as int)]
    } else {
        hex_digits(n / 16).push(hex_char((n % 16) as int))
    }
}

/// The one-character string of a decimal digit.
pub fn digit_str(d: u64) -> (r: &'static str)
    requires
        d < 10,
    ensures
        r@ =~= seq![digit_char(d as int)],
{
    proof {
        reveal_strlit("0");
        reveal_strlit("1");
        reveal_strlit("2");
        reveal_strlit("3");
        reveal_strlit("4");
        reveal_strlit("5");
        reveal_strlit("6");
        reveal_strlit("7");
        reveal_strlit("8");
        reveal_strlit("9");
    }
    if d == 0 {
        "0"
    } else if d == 1 {
        "1"
    } else if d == 2 {
        "2"
    } else if d == 3 {
        "3"
    } else if d == 4 {
        "4"
    } else if d == 5 {
        "5"
    } else if d == 6 {
        "6"
    } else if d == 7 {
        "7"
    } else if d == 8 {
        "8"
    } else {
        "9"
    }
}

/// The one-character string of a hexadecimal digit.
pub fn hex_str(d: u64) -> (r: &'static str)
    requires
        d < 16,
    ensures
        r@ =~= seq![hex_char(d as int)],
{
    proof {
        reveal_strlit("a");
        reveal_strlit("b");
        reveal_strlit("c");
        reveal_strlit("d");
        reveal_strlit("e");
        reveal_strlit("f");
    }
    if d < 10 {
        digit_str(d)
    } else if d == 10 {
        "a"
    } else if d == 11 {
        "b"
    } else if d == 12 {
        "c"
    } else if d == 13 {
        "d"
    } else if d == 14 {
        "e"
    } else {
        "f"
    }
}

/// Renders `n` in decimal.
pub fn format_u64(n: u64) -> (r: String)
    ensures
        r@ == dec_digits(n as nat),
    decreases n,
{
    if n < 10 {
        digit_str(n).to_owned()
    } else {
        let mut s = format_u64(n / 10);
        s.append(digit_str(n % 10));
        proof {
            assert(dec_digits(n as nat) == dec_digits((n as nat) / 10).push(
                digit_char(((n as nat) % 10) as int),
            ));
            assert(dec_digits((n as nat) / 10).push(digit_char(((n as nat) % 10) as int))
                =~= dec_digits((n as nat) / 10) + seq![
                digit_char(((n as nat) % 10) as int)]);
        }
        s
    }
}

/// Renders `n` in lower-case hexadecimal.
pub fn format_hex(n: u64) -> (r: String)
    ensures
        r@ == hex_digits(n as nat),
    decreases n,
{
    if n < 16 {
        hex_str(n).to_owned()
    } else {
        let mut s = format_hex(n / 16);
        s.append(hex_str(n % 16));
        proof {
            assert(hex_digits(n as nat) == hex_digits((n as nat) / 16).push(
                hex_char(((n as nat) % 16) as int),
            ));
            assert(hex_digits((n as nat) / 16).push(hex_char(((n as nat) % 16) as int))
                =~= hex_digits((n as nat) / 16) + seq![
                hex_char(((n as nat) % 16) as int)]);
        }
        s
    }
}

} // verus!
