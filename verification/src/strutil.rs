//! Verified text helpers: equality and prefix tests over character
//! views, reading integers in decimal or hexadecimal, and writing them
//! in decimal.

use vstd::prelude::*;
use vstd::string::StrSliceExecFns;
use vstd::string::StringExecFns;

verus! {

/// Whether two string slices hold the same characters.
pub fn str_eq(a: &str, b: &str) -> (r: bool)
    ensures
        r == (a@ == b@),
{
    let x = a.to_owned();
    let y = b.to_owned();
    x == y
}

/// Whether `s` starts with `p`.
pub fn has_prefix(s: &str, p: &str) -> (r: bool)
    ensures
        r == (s@.len() >= p@.len() && s@.subrange(0, p@.len() as int) == p@),
{
    let n = p.unicode_len();
    if s.unicode_len() < n {
        return false;
    }
    let head = s.substring_char(0, n);
    str_eq(head, p)
}

/// The value of `c` as a digit under `radix`, or `-1` when it is none:
/// `0`-`9`, then letters from `a` or `A` for values from ten up.
pub open spec fn digit_value(c: char, radix: int) -> int {
    let v = if '0' <= c && c <= '9' {
        c as int - '0' as int
    } else if 'a' <= c && c <= 'z' {
        c as int - 'a' as int + 10
    } else if 'A' <= c && c <= 'Z' {
        c as int - 'A' as int + 10
    } else {
        -1
    };
    if 0 <= v < radix {
        v
    } else {
        -1
    }
}

/// The first `n` characters of `s` are all digits under `radix`.
pub open spec fn digits_valid(s: Seq<char>, radix: int, n: int) -> bool {
    forall|j: int| 0 <= j < n ==> digit_value(#[trigger] s[j], radix) >= 0
}

/// The value of the first `n` characters of `s` read as digits under
/// `radix`, most significant first.
pub open spec fn digits_val(s: Seq<char>, radix: int, n: int) -> int
    decreases n,
{
    if n <= 0 {
        0
    } else {
        digits_val(s, radix, n - 1) * radix + digit_value(s[n - 1], radix)
    }
}

/// A run of valid digits reads as a non-negative value.
proof fn lemma_digits_val_nonneg(s: Seq<char>, radix: int, n: int)
    requires
        radix >= 2,
        0 <= n <= s.len(),
        digits_valid(s, radix, n),
    ensures
        digits_val(s, radix, n) >= 0,
    decreases n,
{
    if n > 0 {
        lemma_digits_val_nonneg(s, radix, n - 1);
        let prev = digits_val(s, radix, n - 1);
        assert(digit_value(s[n - 1], radix) >= 0);
        assert(prev * radix >= 0) by (nonlinear_arith)
            requires
                prev >= 0,
                radix >= 2,
        ;
    }
}

/// Digit values never shrink the accumulated value.
proof fn lemma_digits_val_grows(s: Seq<char>, radix: int, m: int, n: int)
    requires
        radix >= 2,
        0 <= m <= n <= s.len(),
        digits_valid(s, radix, n),
    ensures
        0 <= digits_val(s, radix, m) <= digits_val(s, radix, n),
    decreases n - m,
{
    lemma_digits_val_nonneg(s, radix, m);
    if m < n {
        lemma_digits_val_grows(s, radix, m, n - 1);
        let prev = digits_val(s, radix, n - 1);
        assert(digit_value(s[n - 1], radix) >= 0);
        assert(prev * radix >= prev) by (nonlinear_arith)
            requires
                prev >= 0,
                radix >= 2,
        ;
    }
}

/// What reading a signed integer from text yields: an optional sign,
/// then at least one digit, every character a digit, and a value that
/// fits the signed 64-bit range; anything else is no integer.
pub open spec fn from_str_radix_spec(s: Seq<char>, radix: int) -> Option<int> {
    if s.len() == 0 {
        None
    } else {
        let sign: int = if s[0] == '-' {
            -1
        } else {
            1
        };
        let ds = if s[0] == '-' || s[0] == '+' {
            s.drop_first()
        } else {
            s
        };
        if ds.len() == 0 || !digits_valid(ds, radix, ds.len() as int) {
            None
        } else {
            let v = sign * digits_val(ds, radix, ds.len() as int);
            if i64::MIN <= v <= i64::MAX {
                Some(v)
            } else {
                None
            }
        }
    }
}

/// The digit character of `c` under `radix`, when there is one.
fn digit_of(c: char, radix: u32) -> (r: Option<u32>)
    requires
        radix == 10 || radix == 16,
    ensures
        match r {
            Some(d) => digit_value(c, radix as int) == d as int && d < radix,
            None => digit_value(c, radix as int) == -1,
        },
{
    let v: u32 = if '0' <= c && c <= '9' {
        (c as u32) - ('0' as u32)
    } else if 'a' <= c && c <= 'z' {
        (c as u32) - ('a' as u32) + 10
    } else if 'A' <= c && c <= 'Z' {
        (c as u32) - ('A' as u32) + 10
    } else {
        return None;
    };
    if v < radix {
        Some(v)
    } else {
        None
    }
}

/// Read a signed 64-bit integer from `s` under `radix`, exactly as
/// `from_str_radix_spec` describes.
pub fn parse_i64_radix(s: &str, radix: u32) -> (r: Option<i64>)
    requires
        radix == 10 || radix == 16,
    ensures
        match r {
            Some(v) => from_str_radix_spec(s@, radix as int) == Some(v as int),
            None => from_str_radix_spec(s@, radix as int) is None,
        },
{
    let n = s.unicode_len();
    if n == 0 {
        return None;
    }
    let first = s.get_char(0);
    let neg = first == '-';
    let start: usize = if first == '-' || first == '+' {
        1
    } else {
        0
    };
    if start == n {
        return None;
    }
    let ghost ds = if start == 1 {
        s@.drop_first()
    } else {
        s@
    };
    proof {
        assert(ds.len() == n - start);
        assert(forall|j: int| 0 <= j < ds.len() ==> ds[j] == s@[j + start]);
    }
    let bound: i128 = 9223372036854775808i128;
    let mut acc: i128 = 0;
    let mut i: usize = start;
    while i < n
        invariant
            start <= i <= n,
            n == s@.len(),
            start == 0 || start == 1,
            ds == (if start == 1 {
                s@.drop_first()
            } else {
                s@
            }),
            ds.len() == n - start,
            forall|j: int| 0 <= j < ds.len() ==> ds[j] == s@[j + start],
            radix == 10 || radix == 16,
            bound == 9223372036854775808i128,
            (start == 1) == (s@[0] == '-' || s@[0] == '+'),
            neg == (s@[0] == '-'),
            digits_valid(ds, radix as int, i - start),
            acc as int == digits_val(ds, radix as int, i - start),
            0 <= acc <= bound,
        decreases n - i,
    {
        let c = s.get_char(i);
        proof {
            assert(ds[i - start] == s@[i as int]);
        }
        let d = match digit_of(c, radix) {
            Some(d) => d,
            None => {
                // An invalid digit makes the whole text invalid.
                assert(!digits_valid(ds, radix as int, ds.len() as int));
                return None;
            },
        };
        proof {
            assert(acc * (radix as i128) <= bound * 16) by (nonlinear_arith)
                requires
                    0 <= acc <= bound,
                    0 < radix <= 16,
            ;
            assert(acc * (radix as i128) >= 0) by (nonlinear_arith)
                requires
                    0 <= acc,
                    0 < radix,
            ;
        }
        let next: i128 = acc * (radix as i128) + (d as i128);
        proof {
            assert(next as int == digits_val(ds, radix as int, i + 1 - start));
        }
        if next > bound {
            // The value can only grow from here, so it cannot fit either
            // sign's range.
            proof {
                let spec_ds = if s@[0] == '-' || s@[0] == '+' {
                    s@.drop_first()
                } else {
                    s@
                };
                assert(spec_ds == ds);
                if digits_valid(ds, radix as int, ds.len() as int) {
                    lemma_digits_val_grows(ds, radix as int, i + 1 - start, ds.len() as int);
                    let full = digits_val(ds, radix as int, ds.len() as int);
                    assert(full >= next);
                    if s@[0] == '-' {
                        assert((-1) * full == -full);
                        assert(-full < i64::MIN);
                    } else {
                        assert(1 * full == full);
                        assert(full > i64::MAX);
                    }
                }
                assert(from_str_radix_spec(s@, radix as int) is None);
            }
            return None;
        }
        acc = next;
        i = i + 1;
    }
    proof {
        let spec_ds = if s@[0] == '-' || s@[0] == '+' {
            s@.drop_first()
        } else {
            s@
        };
        assert(spec_ds == ds);
        assert(acc as int == digits_val(ds, radix as int, ds.len() as int));
    }
    if neg {
        let v: i128 = -acc;
        proof {
            assert(v >= i64::MIN as i128);
            assert(v as int == -(acc as int));
            assert((-1) * (acc as int) == -(acc as int)) by (nonlinear_arith);
            assert(from_str_radix_spec(s@, radix as int) == Some(v as int));
        }
        Some(v as i64)
    } else {
        if acc > 9223372036854775807i128 {
            proof {
                assert(1 * (acc as int) == acc as int);
                assert(acc as int > i64::MAX);
                assert(from_str_radix_spec(s@, radix as int) is None);
            }
            return None;
        }
        proof {
            assert(1 * (acc as int) == acc as int);
            assert(from_str_radix_spec(s@, radix as int) == Some(acc as int));
        }
        Some(acc as i64)
    }
}

/// The decimal digit character for `d`.
pub open spec fn dec_digit(d: int) -> char {
    if d == 0 {
        '0'
    } else if d == 1 {
        '1'
    } else if d == 2 {
        '2'
    } else if d == 3 {
        '3'
    } else if d == 4 {
        '4'
    } else if d == 5 {
        '5'
    } else if d == 6 {
        '6'
    } else if d == 7 {
        '7'
    } else if d == 8 {
        '8'
    } else {
        '9'
    }
}

/// The decimal text of `n`, most significant digit first.
pub open spec fn dec_str_of(n: nat) -> Seq<char>
    decreases n,
{
    if n < 10 {
        seq![dec_digit(n as int)]
    } else {
        dec_str_of(n / 10).push(dec_digit((n % 10) as int))
    }
}

/// The decimal text of a signed value: a minus sign before the
/// magnitude when it is negative.
pub open spec fn dec_str_of_i64(n: int) -> Seq<char> {
    if n >= 0 {
        dec_str_of(n as nat)
    } else {
        seq!['-'] + dec_str_of((-n) as nat)
    }
}

/// Digit values read only the prefix they cover.
proof fn lemma_digits_val_prefix(s: Seq<char>, t: Seq<char>, radix: int, n: int)
    requires
        0 <= n <= s.len(),
        n <= t.len(),
        forall|j: int| 0 <= j < n ==> s[j] == t[j],
    ensures
        digits_val(s, radix, n) == digits_val(t, radix, n),
        digits_valid(s, radix, n) == digits_valid(t, radix, n),
    decreases n,
{
    if n > 0 {
        lemma_digits_val_prefix(s, t, radix, n - 1);
    }
}

/// Decimal text is made of decimal digits and reads back as the number
/// it was written from; a positive number never starts with a zero.
proof fn lemma_dec_str_reads_back(n: nat)
    ensures
        dec_str_of(n).len() >= 1,
        digits_valid(dec_str_of(n), 10, dec_str_of(n).len() as int),
        digits_val(dec_str_of(n), 10, dec_str_of(n).len() as int) == n,
        n >= 1 ==> dec_str_of(n)[0] != '0',
        dec_str_of(n)[0] != '-' && dec_str_of(n)[0] != '+',
    decreases n,
{
    if n < 10 {
        assert(digit_value(dec_digit(n as int), 10) == n);
        assert(digits_val(dec_str_of(n), 10, 0) == 0);
        assert(dec_str_of(n) == seq![dec_digit(n as int)]);
    } else {
        lemma_dec_str_reads_back(n / 10);
        let s = dec_str_of(n / 10);
        let w = dec_str_of(n);
        assert(w == s.push(dec_digit((n % 10) as int)));
        assert(w.len() == s.len() + 1);
        assert(forall|j: int| 0 <= j < s.len() ==> w[j] == s[j]);
        lemma_digits_val_prefix(w, s, 10, s.len() as int);
        assert(digit_value(dec_digit((n % 10) as int), 10) == n % 10);
        assert(w[w.len() - 1] == dec_digit((n % 10) as int));
        assert(digits_val(w, 10, w.len() as int) == digits_val(w, 10, s.len() as int) * 10 + (n
            % 10));
        assert(digits_val(w, 10, w.len() as int) == (n / 10) * 10 + (n % 10));
        vstd::arithmetic::div_mod::lemma_fundamental_div_mod(n as int, 10);
        assert(w[0] == s[0]);
    }
}

/// Decimal text written from a signed 64-bit value reads back as that
/// value.
pub proof fn lemma_dec_str_of_i64_reads_back(t: int)
    requires
        i64::MIN <= t <= i64::MAX,
    ensures
        from_str_radix_spec(dec_str_of_i64(t), 10) == Some(t),
        dec_str_of_i64(t)[0] == '0' ==> dec_str_of_i64(t).len() == 1,
{
    if t >= 0 {
        let s = dec_str_of_i64(t);
        lemma_dec_str_reads_back(t as nat);
        assert(digit_value(s[0], 10) >= 0);
        assert(s[0] != '-' && s[0] != '+');
        if t == 0 {
            assert(s == seq![dec_digit(0)]);
        }
    } else {
        let s = dec_str_of_i64(t);
        let mag = (-t) as nat;
        lemma_dec_str_reads_back(mag);
        let d = dec_str_of(mag);
        assert(s == seq!['-'] + d);
        assert(s[0] == '-');
        assert(s.drop_first() =~= d);
        assert((-1) * (mag as int) == t) by (nonlinear_arith)
            requires
                mag == -t,
        ;
    }
}

/// The one-character text of a decimal digit.
fn dec_digit_str(d: u64) -> (r: &'static str)
    requires
        d < 10,
    ensures
        r@ == seq![dec_digit(d as int)],
{
    let r: &'static str = if d == 0 {
        "0"
    } else if d == 1 {
        "1"
    } else if d == 2 {
        "2"
    } else if d == 3 {
        "3"
    } else if d == 4 {
        "4"
    } else if d == 5 {
        "5"
    } else if d == 6 {
        "6"
    } else if d == 7 {
        "7"
    } else if d == 8 {
        "8"
    } else {
        "9"
    };
    proof {
        reveal_strlit("0");
        reveal_strlit("1");
        reveal_strlit("2");
        reveal_strlit("3");
        reveal_strlit("4");
        reveal_strlit("5");
        reveal_strlit("6");
        reveal_strlit("7");
        reveal_strlit("8");
        reveal_strlit("9");
        assert(r@ =~= seq![dec_digit(d as int)]);
    }
    r
}

/// Write `u` in decimal.
pub fn u64_to_dec_string(u: u64) -> (r: String)
    ensures
        r@ == dec_str_of(u as nat),
    decreases u,
{
    if u < 10 {
        String::from_str(dec_digit_str(u))
    } else {
        let mut s = u64_to_dec_string(u / 10);
        s.append(dec_digit_str(u % 10));
        proof {
            assert(s@ =~= dec_str_of((u / 10) as nat).push(dec_digit((u % 10) as int)));
        }
        s
    }
}

/// Write `n` in decimal, with a minus sign when it is negative.
pub fn i64_to_dec_string(n: i64) -> (r: String)
    ensures
        r@ == dec_str_of_i64(n as int),
{
    if n >= 0 {
        u64_to_dec_string(n as u64)
    } else {
        let mag: u64 = if n == i64::MIN {
            9223372036854775808u64
        } else {
            (-n) as u64
        };
        let mut s = String::from_str("-");
        s.append(u64_to_dec_string(mag).as_str());
        proof {
            reveal_strlit("-");
            assert(s@ =~= seq!['-'] + dec_str_of(mag as nat));
        }
        s
    }
}

} // verus!
