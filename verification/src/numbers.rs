//! Decimal digits: classification, values, rendering, and the
//! suffix-aware count parser for listing statistics such as "12k".
use vstd::prelude::*;

use crate::scan::copy_range;
use crate::scan::find_char_from;
use crate::scan::first_char_at;

verus! {

pub open spec fn is_digit(c: char) -> bool {
    c == '0' || c == '1' || c == '2' || c == '3' || c == '4' || c == '5' || c == '6' || c == '7'
        || c == '8' || c == '9'
}

pub open spec fn digit_of(c: char) -> nat {
    if c == '0' {
        0
    } else if c == '1' {
        1
    } else if c == '2' {
        2
    } else if c == '3' {
        3
    } else if c == '4' {
        4
    } else if c == '5' {
        5
    } else if c == '6' {
        6
    } else if c == '7' {
        7
    } else if c == '8' {
        8
    } else {
        9
    }
}

pub open spec fn digit_char(d: nat) -> char {
    if d == 0 {
        '0'
    } else if d == 1 {
        '1'
    } else if d == 2 {
        '2'
    } else if d == 3 {
        '3'
    } else if d == 4 {
        '4'
    } else if d == 5 {
        '5'
    } else if d == 6 {
        '6'
    } else if d == 7 {
        '7'
    } else if d == 8 {
        '8'
    } else {
        '9'
    }
}

pub open spec fn all_digits(s: Seq<char>) -> bool {
    forall|i: int| 0 <= i < s.len() ==> is_digit(s[i])
}

/// The value of a digit string, read left to right.
pub open spec fn digits_val(s: Seq<char>) -> nat
    decreases s.len(),
{
    if s.len() == 0 {
        0
    } else {
        digits_val(s.drop_last()) * 10 + digit_of(s.last())
    }
}

/// A prefix of a digit string is worth no more than the whole.
pub proof fn lemma_digits_val_prefix(s: Seq<char>, k: int)
    requires
        0 <= k <= s.len(),
    ensures
        digits_val(s.take(k)) <= digits_val(s),
    decreases s.len() - k,
{
    if k < s.len() {
        lemma_digits_val_prefix(s, k + 1);
        assert(s.take(k + 1).drop_last() =~= s.take(k));
        assert(digits_val(s.take(k + 1)) == digits_val(s.take(k)) * 10 + digit_of(
            s.take(k + 1).last(),
        ));
    } else {
        assert(s.take(k) =~= s);
    }
}

pub open spec fn pow10(k: nat) -> nat
    decreases k,
{
    if k == 0 {
        1nat
    } else {
        10 * pow10((k - 1) as nat)
    }
}

pub proof fn lemma_pow10_pos(k: nat)
    ensures
        pow10(k) >= 1,
    decreases k,
{
    if k > 0 {
        lemma_pow10_pos((k - 1) as nat);
    }
}

/// A digit string of length n is worth less than 10^n.
pub proof fn lemma_digits_val_bound(s: Seq<char>)
    ensures
        digits_val(s) < pow10(s.len()),
    decreases s.len(),
{
    if s.len() > 0 {
        lemma_digits_val_bound(s.drop_last());
        assert(digits_val(s) == digits_val(s.drop_last()) * 10 + digit_of(s.last()));
        assert(digits_val(s.drop_last()) * 10 + 9 < pow10(s.len())) by (nonlinear_arith)
            requires
                digits_val(s.drop_last()) < pow10((s.len() - 1) as nat),
                pow10(s.len()) == 10 * pow10((s.len() - 1) as nat),
        ;
        assert(digit_of(s.last()) <= 9);
    } else {
        lemma_pow10_pos(0);
    }
}

/// The digits of `n` with no leading zero (empty for zero).
pub open spec fn digits_rep(n: nat) -> Seq<char>
    decreases n,
{
    if n == 0 {
        Seq::empty()
    } else {
        digits_rep(n / 10).push(digit_char(n % 10))
    }
}

/// The decimal rendering of `n`: "0" for zero, otherwise its digits with
/// no leading zero.
pub open spec fn dec_digits(n: nat) -> Seq<char> {
    if n == 0 {
        seq!['0']
    } else {
        digits_rep(n)
    }
}

pub proof fn lemma_digits_rep_val(n: nat)
    ensures
        all_digits(digits_rep(n)),
        digits_val(digits_rep(n)) == n,
        n > 0 ==> digits_rep(n).len() >= 1 && digits_rep(n)[0] != '0',
    decreases n,
{
    if n > 0 {
        lemma_digits_rep_val(n / 10);
        let s = digits_rep(n);
        assert(s == digits_rep(n / 10).push(digit_char(n % 10)));
        assert(s.drop_last() =~= digits_rep(n / 10));
        assert(digit_of(digit_char(n % 10)) == n % 10);
        assert(digits_val(s) == (n / 10) * 10 + n % 10);
        assert((n / 10) * 10 + n % 10 == n) by (nonlinear_arith);
        if n / 10 > 0 {
            assert(s[0] == digits_rep(n / 10)[0]);
        }
        assert forall|i: int| 0 <= i < s.len() implies is_digit(s[i]) by {
            if i < s.len() - 1 {
                assert(s[i] == digits_rep(n / 10)[i]);
            }
        }
    }
}

/// Everything `dec_digits` renders is digits and reads back as the same
/// value.
pub proof fn lemma_dec_digits_val(n: nat)
    ensures
        all_digits(dec_digits(n)),
        dec_digits(n).len() >= 1,
        digits_val(dec_digits(n)) == n,
{
    lemma_digits_rep_val(n);
    if n == 0 {
        assert(dec_digits(0).drop_last() =~= Seq::<char>::empty());
    }
}

/// The executable digit for a value below ten.
fn digit_char_of(d: u64) -> (c: char)
    requires
        d < 10,
    ensures
        c == digit_char(d as nat),
{
    if d == 0 {
        '0'
    } else if d == 1 {
        '1'
    } else if d == 2 {
        '2'
    } else if d == 3 {
        '3'
    } else if d == 4 {
        '4'
    } else if d == 5 {
        '5'
    } else if d == 6 {
        '6'
    } else if d == 7 {
        '7'
    } else if d == 8 {
        '8'
    } else {
        '9'
    }
}

/// Appends the digits of `n` (nothing for zero), as `digits_rep` lays
/// them out.
fn push_digits(n: u64, out: &mut Vec<char>)
    ensures
        final(out)@ == old(out)@ + digits_rep(n as nat),
    decreases n,
{
    if n == 0 {
        proof {
            assert(old(out)@ + digits_rep(0nat) =~= old(out)@);
        }
    } else {
        push_digits(n / 10, out);
        let c = digit_char_of(n % 10);
        out.push(c);
        proof {
            assert(old(out)@ + digits_rep((n / 10) as nat).push(c) =~= (old(out)@ + digits_rep(
                (n / 10) as nat,
            )).push(c));
            assert((n / 10) as nat == (n as nat) / 10);
            assert((n % 10) as nat == (n as nat) % 10);
        }
    }
}

/// Renders `n` in decimal.
pub fn u64_to_dec(n: u64) -> (r: Vec<char>)
    ensures
        r@ == dec_digits(n as nat),
{
    let mut r: Vec<char> = Vec::new();
    if n == 0 {
        r.push('0');
        proof {
            assert(r@ =~= seq!['0']);
        }
        return r;
    }
    push_digits(n, &mut r);
    proof {
        assert(r@ =~= digits_rep(n as nat));
    }
    r
}

/// The value of the digits `t[a..b]` when it fits in u64.
pub fn parse_u64_range(t: &Vec<char>, a: usize, b: usize) -> (r: Option<u64>)
    requires
        a <= b <= t@.len(),
        all_digits(t@.subrange(a as int, b as int)),
    ensures
        r matches Some(v) ==> v as nat == digits_val(t@.subrange(a as int, b as int)),
        r is None ==> digits_val(t@.subrange(a as int, b as int)) > u64::MAX,
{
    let ghost s = t@.subrange(a as int, b as int);
    let mut acc: u64 = 0;
    let mut k: usize = a;
    proof {
        assert(s.take(0) =~= Seq::<char>::empty());
    }
    while k < b
        invariant
            a <= k <= b <= t@.len(),
            s == t@.subrange(a as int, b as int),
            all_digits(s),
            acc as nat == digits_val(s.take(k - a)),
        decreases b - k,
    {
        let c = t[k];
        proof {
            assert(s[k - a] == t@[k as int]);
            assert(is_digit(s[k - a]));
        }
        let d: u64 = if c == '0' {
            0
        } else if c == '1' {
            1
        } else if c == '2' {
            2
        } else if c == '3' {
            3
        } else if c == '4' {
            4
        } else if c == '5' {
            5
        } else if c == '6' {
            6
        } else if c == '7' {
            7
        } else if c == '8' {
            8
        } else {
            9
        };
        proof {
            assert(d as nat == digit_of(s[k - a]));
            assert(s.take(k - a + 1).drop_last() =~= s.take(k - a));
            assert(s.take(k - a + 1).last() == s[k - a]);
        }
        let m = match acc.checked_mul(10) {
            Some(m) => m,
            None => {
                proof {
                    lemma_digits_val_prefix(s, k - a + 1);
                }
                return None;
            },
        };
        let sum = match m.checked_add(d) {
            Some(sum) => sum,
            None => {
                proof {
                    lemma_digits_val_prefix(s, k - a + 1);
                }
                return None;
            },
        };
        acc = sum;
        k = k + 1;
    }
    proof {
        assert(s.take(b - a) =~= s);
    }
    Some(acc)
}

/// First index at or after `i` holding no digit.
pub open spec fn digit_end(t: Seq<char>, i: int) -> int
    decreases t.len() - i,
{
    if i < 0 || i >= t.len() {
        i
    } else if is_digit(t[i]) {
        digit_end(t, i + 1)
    } else {
        i
    }
}

/// Everything between `i` and where the digits stop is a digit.
pub proof fn lemma_digit_end_props(t: Seq<char>, i: int)
    requires
        0 <= i <= t.len(),
    ensures
        i <= digit_end(t, i) <= t.len(),
        forall|k: int| i <= k < digit_end(t, i) ==> is_digit(t[k]),
    decreases t.len() - i,
{
    if i < t.len() && is_digit(t[i]) {
        lemma_digit_end_props(t, i + 1);
    }
}

/// First index with no digit; mirrors `digit_end`.
pub fn digit_end_exec(t: &Vec<char>, i: usize) -> (r: usize)
    requires
        i as int <= t@.len(),
    ensures
        r == digit_end(t@, i as int),
        i <= r <= t@.len(),
{
    proof {
        lemma_digit_end_props(t@, i as int);
    }
    let mut j = i;
    while j < t.len() && (t[j] == '0' || t[j] == '1' || t[j] == '2' || t[j] == '3' || t[j] == '4'
        || t[j] == '5' || t[j] == '6' || t[j] == '7' || t[j] == '8' || t[j] == '9')
        invariant
            i <= j <= t@.len(),
            digit_end(t@, i as int) == digit_end(t@, j as int),
        decreases t@.len() - j,
    {
        j = j + 1;
    }
    j
}

/// Why a count with a magnitude suffix failed to parse.
#[derive(Clone, Copy, Debug, PartialEq, Eq, Structural)]
pub enum CountParseError {
    /// The text does not fit the grammar: digits, an optional dot and
    /// fraction digits, and an optional trailing k/K/m/M.
    Malformed,
    /// The text fits the grammar but the value exceeds u32.
    Overflow,
}

/// The first `scale` fraction digits, right-padded with zeros.
pub open spec fn frac_scaled(fp: Seq<char>, scale: nat) -> nat {
    if fp.len() >= scale {
        digits_val(fp.take(scale as int))
    } else {
        digits_val(fp) * pow10((scale - fp.len()) as nat)
    }
}

/// The value of "digits[.digits]" scaled by 10^scale, truncated to an
/// integer; None when the text does not fit that grammar.
pub open spec fn scaled_val(p: Seq<char>, scale: nat) -> Option<nat> {
    match first_char_at(p, '.', 0) {
        Option::None => if p.len() >= 1 && all_digits(p) {
            Some(digits_val(p) * pow10(scale))
        } else {
            None
        },
        Option::Some(d) => {
            let ip = p.subrange(0, d);
            let fp = p.subrange(d + 1, p.len() as int);
            if ip.len() >= 1 && all_digits(ip) && all_digits(fp) {
                Some(digits_val(ip) * pow10(scale) + frac_scaled(fp, scale))
            } else {
                None
            }
        },
    }
}

/// The integer a suffixed count stands for: a bare digit string is its own
/// value; a k/K suffix scales the decimal prefix by one thousand, an m/M
/// suffix by one million, truncating; anything else has no value.
pub open spec fn suffix_count(s: Seq<char>) -> Option<nat> {
    if s.len() == 0 {
        None
    } else if s.last() == 'k' || s.last() == 'K' {
        scaled_val(s.drop_last(), 3)
    } else if s.last() == 'm' || s.last() == 'M' {
        scaled_val(s.drop_last(), 6)
    } else if all_digits(s) {
        Some(digits_val(s))
    } else {
        None
    }
}

/// Check that `t[a..b]` is all digits.
fn check_all_digits(t: &Vec<char>, a: usize, b: usize) -> (r: bool)
    requires
        a <= b <= t@.len(),
    ensures
        r == all_digits(t@.subrange(a as int, b as int)),
{
    let ghost s = t@.subrange(a as int, b as int);
    let mut k: usize = a;
    while k < b
        invariant
            a <= k <= b <= t@.len(),
            s == t@.subrange(a as int, b as int),
            forall|i: int| 0 <= i < k - a ==> is_digit(s[i]),
        decreases b - k,
    {
        let c = t[k];
        let ok = c == '0' || c == '1' || c == '2' || c == '3' || c == '4' || c == '5' || c == '6'
            || c == '7' || c == '8' || c == '9';
        proof {
            assert(s[k - a] == t@[k as int]);
        }
        if !ok {
            return false;
        }
        k = k + 1;
    }
    true
}

/// The small powers of ten, spelled out for the solver.
pub proof fn lemma_pow10_vals()
    ensures
        pow10(3) == 1000,
        pow10(6) == 1000000,
{
    assert(pow10(0) == 1);
    assert(pow10(1) == 10);
    assert(pow10(2) == 100);
    assert(pow10(3) == 1000);
    assert(pow10(4) == 10000);
    assert(pow10(5) == 100000);
    assert(pow10(6) == 1000000);
}

/// Scales the integer part and adds the fraction, watching the u32 bound.
fn scale_and_check(ip: u64, mult: u64, frac: u64) -> (r: Result<u32, CountParseError>)
    ensures
        ({
            let m = (ip as nat) * (mult as nat) + (frac as nat);
            if m <= u32::MAX {
                r matches Ok(n) && n as nat == m
            } else {
                r == Err::<u32, CountParseError>(CountParseError::Overflow)
            }
        }),
{
    let scaled = match ip.checked_mul(mult) {
        Some(x) => x,
        None => {
            return Err(CountParseError::Overflow);
        },
    };
    let total = match scaled.checked_add(frac) {
        Some(x) => x,
        None => {
            return Err(CountParseError::Overflow);
        },
    };
    if total > 0xffff_ffff {
        Err(CountParseError::Overflow)
    } else {
        Ok(total as u32)
    }
}

/// The scaled decimal value of the count prefix `p`, against `scaled_val`.
fn parse_scaled(p: &Vec<char>, scale3: bool) -> (r: Result<u32, CountParseError>)
    ensures
        ({
            let sc: nat = if scale3 {
                3nat
            } else {
                6nat
            };
            match r {
                Ok(n) => scaled_val(p@, sc) == Some(n as nat),
                Err(CountParseError::Malformed) => scaled_val(p@, sc) is None,
                Err(CountParseError::Overflow) => scaled_val(p@, sc) matches Some(m) && m
                    > u32::MAX,
            }
        }),
{
    let ghost sc: nat = if scale3 {
        3nat
    } else {
        6nat
    };
    let mult: u64 = if scale3 {
        1000
    } else {
        1000000
    };
    let scale: usize = if scale3 {
        3
    } else {
        6
    };
    proof {
        lemma_pow10_vals();
    }
    let n = p.len();
    match find_char_from(p, '.', 0) {
        None => {
            if n == 0 {
                return Err(CountParseError::Malformed);
            }
            if !check_all_digits(p, 0, n) {
                proof {
                    assert(p@.subrange(0, n as int) =~= p@);
                }
                return Err(CountParseError::Malformed);
            }
            proof {
                assert(p@.subrange(0, n as int) =~= p@);
            }
            let ghost m = digits_val(p@) * pow10(sc);
            proof {
                assert(scaled_val(p@, sc) == Some(m));
                assert(m >= digits_val(p@)) by (nonlinear_arith)
                    requires
                        m == digits_val(p@) * pow10(sc),
                        pow10(sc) >= 1,
                ;
            }
            let ip = match parse_u64_range(p, 0, n) {
                Some(x) => x,
                None => {
                    return Err(CountParseError::Overflow);
                },
            };
            scale_and_check(ip, mult, 0)
        },
        Some(d) => {
            if d == 0 {
                proof {
                    assert(p@.subrange(0, 0).len() == 0);
                }
                return Err(CountParseError::Malformed);
            }
            let ghost ipg = p@.subrange(0, d as int);
            let ghost fp = p@.subrange(d + 1 as int, p@.len() as int);
            if !check_all_digits(p, d + 1, n) {
                return Err(CountParseError::Malformed);
            }
            if !check_all_digits(p, 0, d) {
                return Err(CountParseError::Malformed);
            }
            // both parts are digits, so the prefix fits the grammar
            let ghost m = digits_val(ipg) * pow10(sc) + frac_scaled(fp, sc);
            proof {
                assert(scaled_val(p@, sc) == Some(m));
                assert(digits_val(ipg) * pow10(sc) >= digits_val(ipg)) by (nonlinear_arith)
                    requires
                        pow10(sc) >= 1,
                ;
            }
            let frac_len = n - (d + 1);
            let f: u64 = if frac_len >= scale {
                proof {
                    assert(fp.take(sc as int) =~= p@.subrange(d + 1 as int, d + 1 + sc as int));
                    assert(all_digits(fp.take(sc as int)));
                    lemma_digits_val_bound(fp.take(sc as int));
                    lemma_pow10_le(sc, 6);
                }
                let fv = match parse_u64_range(p, d + 1, d + 1 + scale) {
                    Some(f) => f,
                    None => {
                        // at most six digits always fit in u64
                        proof {
                            assert(false);
                        }
                        0
                    },
                };
                proof {
                    assert(fp.len() >= sc);
                    assert(fv as nat == digits_val(fp.take(sc as int)));
                    assert(fv as nat == frac_scaled(fp, sc));
                }
                fv
            } else {
                proof {
                    lemma_digits_val_bound(fp);
                    lemma_pow10_le(fp.len() as nat, 6);
                }
                let base = match parse_u64_range(p, d + 1, n) {
                    Some(f) => f,
                    None => {
                        // fewer than six digits always fit in u64
                        proof {
                            assert(false);
                        }
                        0
                    },
                };
                let mut pad: usize = scale - frac_len;
                let mut f: u64 = base;
                proof {
                    assert(pow10(0nat) == 1);
                    assert(fp.len() == frac_len);
                    lemma_pow10_split(fp.len() as nat, (sc - fp.len()) as nat);
                    lemma_pow10_pos((sc - fp.len()) as nat);
                    assert(f as nat * pow10((sc - fp.len()) as nat) < pow10(sc)) by (
                    nonlinear_arith)
                        requires
                            (f as nat) < pow10(fp.len() as nat),
                            pow10(sc) == pow10(fp.len() as nat) * pow10((sc - fp.len()) as nat),
                            pow10((sc - fp.len()) as nat) >= 1,
                    ;
                    lemma_pow10_le(sc, 6);
                }
                while pad > 0
                    invariant
                        fp.len() + pad <= sc,
                        sc == 3 || sc == 6,
                        f as nat * pow10(pad as nat) == digits_val(fp) * pow10(
                            (sc - fp.len()) as nat,
                        ),
                        f as nat * pow10(pad as nat) < pow10(sc),
                        pow10(sc) <= 1000000,
                    decreases pad,
                {
                    proof {
                        lemma_pow10_pos((pad - 1) as nat);
                        assert(f as nat * pow10(pad as nat) == (f as nat * 10) * pow10(
                            (pad - 1) as nat,
                        )) by (nonlinear_arith)
                            requires
                                pow10(pad as nat) == 10 * pow10((pad - 1) as nat),
                        ;
                        assert((f as nat * 10) <= (f as nat * 10) * pow10((pad - 1) as nat)) by (
                        nonlinear_arith)
                            requires
                                pow10((pad - 1) as nat) >= 1,
                        ;
                    }
                    f = f * 10;
                    pad = pad - 1;
                }
                proof {
                    assert(pow10(0nat) == 1);
                    assert(fp.len() < sc);
                    assert(pad == 0);
                    assert(pow10(pad as nat) == 1);
                    assert(f as nat * pow10(pad as nat) == digits_val(fp) * pow10(
                        (sc - fp.len()) as nat,
                    ));
                    assert(f as nat == digits_val(fp) * pow10((sc - fp.len()) as nat)) by (
                    nonlinear_arith)
                        requires
                            f as nat * pow10(pad as nat) == digits_val(fp) * pow10(
                                (sc - fp.len()) as nat,
                            ),
                            pow10(pad as nat) == 1,
                    ;
                    assert(f as nat == frac_scaled(fp, sc));
                }
                f
            };
            proof {
                assert(f as nat == frac_scaled(fp, sc));
            }
            let ip = match parse_u64_range(p, 0, d) {
                Some(x) => x,
                None => {
                    return Err(CountParseError::Overflow);
                },
            };
            proof {
                assert(m == (ip as nat) * (mult as nat) + (f as nat));
            }
            scale_and_check(ip, mult, f)
        },
    }
}

pub proof fn lemma_pow10_le(a: nat, b: nat)
    requires
        a <= b,
    ensures
        pow10(a) <= pow10(b),
    decreases b,
{
    if a < b {
        lemma_pow10_le(a, (b - 1) as nat);
        lemma_pow10_pos((b - 1) as nat);
    }
}

pub proof fn lemma_pow10_split(a: nat, b: nat)
    ensures
        pow10(a + b) == pow10(a) * pow10(b),
    decreases b,
{
    if b == 0 {
        assert(pow10(0nat) == 1);
        assert(a + b == a);
    } else {
        lemma_pow10_split(a, (b - 1) as nat);
        assert(pow10(a + b) == 10 * pow10((a + b - 1) as nat));
        assert(pow10((a + b - 1) as nat) == pow10(a + ((b - 1) as nat)));
        assert(pow10(b) == 10 * pow10((b - 1) as nat));
        assert(pow10(a + b) == 10 * (pow10(a) * pow10((b - 1) as nat)));
        assert(10 * (pow10(a) * pow10((b - 1) as nat)) == pow10(a) * (10 * pow10(
            (b - 1) as nat,
        ))) by (nonlinear_arith);
        assert(pow10(a + b) == pow10(a) * pow10(b));
    }
}

/// Parses a count that may carry a k/K (thousand) or m/M (million)
/// magnitude suffix; the numeric prefix is digits with an optional dot
/// and fraction, truncated after scaling. A bare count must be all
/// digits. Values over u32 and text outside the grammar are errors.
pub fn parse_count(s: &str) -> (r: Result<u32, CountParseError>)
    ensures
        r matches Ok(n) ==> suffix_count(s@) == Some(n as nat),
        r == Err::<u32, CountParseError>(CountParseError::Malformed) ==> suffix_count(s@) is None,
        r == Err::<u32, CountParseError>(CountParseError::Overflow) ==> (suffix_count(
            s@,
        ) matches Some(m) && m > u32::MAX),
{
    let v = crate::text::str_to_chars(s);
    let n = v.len();
    if n == 0 {
        return Err(CountParseError::Malformed);
    }
    let last = v[n - 1];
    if last == 'k' || last == 'K' || last == 'm' || last == 'M' {
        let head = copy_range(&v, 0, n - 1);
        proof {
            assert(head@ =~= s@.drop_last());
        }
        parse_scaled(&head, last == 'k' || last == 'K')
    } else {
        if !check_all_digits(&v, 0, n) {
            proof {
                assert(v@.subrange(0, n as int) =~= s@);
            }
            return Err(CountParseError::Malformed);
        }
        proof {
            assert(v@.subrange(0, n as int) =~= s@);
        }
        match parse_u64_range(&v, 0, n) {
            Some(x) => if x > 0xffff_ffff {
                Err(CountParseError::Overflow)
            } else {
                Ok(x as u32)
            },
            None => Err(CountParseError::Overflow),
        }
    }
}

} // verus!
