//! Decimal representation of the numeric fields: printing `u64` and `i64`
//! values and parsing them back, with proved round trips.

use vstd::prelude::*;

verus! {

/// The character for a single decimal digit value.
pub open spec fn dec_digit(d: int) -> char
    recommends
        0 <= d <= 9,
{
    ((d + 48) as u8) as char
}

/// The decimal digits of `n`, most significant first.
pub open spec fn spec_u64_chars(n: nat) -> Seq<char>
    decreases n,
{
    if n < 10 {
        seq![dec_digit(n as int)]
    } else {
        spec_u64_chars(n / 10).push(dec_digit((n % 10) as int))
    }
}

/// The decimal representation of a signed value: a minus sign for negative
/// values, then the digits of the magnitude.
pub open spec fn spec_i64_chars(v: int) -> Seq<char> {
    if v >= 0 {
        spec_u64_chars(v as nat)
    } else {
        seq!['-'] + spec_u64_chars((-v) as nat)
    }
}

/// Whether `c` is a decimal digit.
pub open spec fn is_digit(c: char) -> bool {
    48 <= c as u32 <= 57
}

/// Whether every character of `s` is a decimal digit.
pub open spec fn all_digits(s: Seq<char>) -> bool {
    forall|i: int| 0 <= i < s.len() ==> is_digit(#[trigger] s[i])
}

/// The value of a digit string, most significant first.
pub open spec fn digits_val(s: Seq<char>) -> int
    decreases s.len(),
{
    if s.len() == 0 {
        0
    } else {
        digits_val(s.drop_last()) * 10 + (s[s.len() - 1] as u32 - 48)
    }
}

/// The `u64` denoted by `s` under the rules of `u64::from_str`: an optional
/// leading plus sign, then at least one digit, with the value in range.
pub open spec fn spec_parse_u64(s: Seq<char>) -> Option<u64> {
    let t = if s.len() > 0 && s[0] == '+' {
        s.drop_first()
    } else {
        s
    };
    if t.len() == 0 || !all_digits(t) || digits_val(t) > u64::MAX {
        None
    } else {
        Some(digits_val(t) as u64)
    }
}

/// The `i64` denoted by `s` under the rules of `i64::from_str`: an optional
/// sign, then at least one digit, with the value in range.
pub open spec fn spec_parse_i64(s: Seq<char>) -> Option<i64> {
    if s.len() > 0 && s[0] == '-' {
        let t = s.drop_first();
        if t.len() == 0 || !all_digits(t) || digits_val(t) > (i64::MAX as int) + 1 {
            None
        } else {
            Some((-digits_val(t)) as i64)
        }
    } else {
        let t = if s.len() > 0 && s[0] == '+' {
            s.drop_first()
        } else {
            s
        };
        if t.len() == 0 || !all_digits(t) || digits_val(t) > i64::MAX {
            None
        } else {
            Some(digits_val(t) as i64)
        }
    }
}

/// The printed digits of `n` are digits, denote `n`, and start with a digit.
pub proof fn lemma_u64_chars(n: nat)
    ensures
        spec_u64_chars(n).len() >= 1,
        all_digits(spec_u64_chars(n)),
        digits_val(spec_u64_chars(n)) == n,
    decreases n,
{
    if n < 10 {
        let s = spec_u64_chars(n);
        assert(s[0] as u32 == n + 48);
        assert(s.drop_last() =~= Seq::<char>::empty());
        assert(digits_val(s) == digits_val(s.drop_last()) * 10 + (s[0] as u32 - 48));
        assert(digits_val(Seq::<char>::empty()) == 0);
    } else {
        lemma_u64_chars(n / 10);
        let p = spec_u64_chars(n / 10);
        let d = (n % 10) as int;
        let s = p.push(dec_digit(d));
        assert(s.drop_last() =~= p);
        assert(dec_digit(d) as u32 == d + 48);
        assert(all_digits(s)) by {
            assert(forall|i: int| 0 <= i < p.len() ==> s[i] == p[i]);
        }
        assert(digits_val(s) == digits_val(p) * 10 + d);
        assert(digits_val(p) * 10 + d == n) by {
            assert(n == (n / 10) * 10 + n % 10);
        }
    }
}

/// The value of a digit string is never negative.
pub proof fn lemma_digits_val_nonneg(s: Seq<char>)
    requires
        all_digits(s),
    ensures
        digits_val(s) >= 0,
    decreases s.len(),
{
    if s.len() > 0 {
        assert(all_digits(s.drop_last())) by {
            assert(forall|i: int| 0 <= i < s.len() - 1 ==> s.drop_last()[i] == s[i]);
        }
        lemma_digits_val_nonneg(s.drop_last());
        assert(is_digit(s[s.len() - 1]));
    }
}

/// Digit characters are digits, not signs.
pub proof fn lemma_digit_not_sign(c: char)
    requires
        is_digit(c),
    ensures
        c != '+',
        c != '-',
{
    assert('+' as u32 == 43);
    assert('-' as u32 == 45);
}

/// Parsing the printed digits of a `u64` yields the value back.
pub proof fn lemma_parse_u64_chars(n: u64)
    ensures
        spec_parse_u64(spec_u64_chars(n as nat)) == Some(n),
{
    lemma_u64_chars(n as nat);
    let s = spec_u64_chars(n as nat);
    lemma_digit_not_sign(s[0]);
    assert(digits_val(s) <= u64::MAX);
    assert(digits_val(s) as u64 == n);
}

/// Parsing the printed form of an `i64` yields the value back.
pub proof fn lemma_parse_i64_chars(v: i64)
    ensures
        spec_parse_i64(spec_i64_chars(v as int)) == Some(v),
{
    if v >= 0 {
        lemma_u64_chars(v as nat);
        let s = spec_u64_chars(v as nat);
        lemma_digit_not_sign(s[0]);
        assert(digits_val(s) as i64 == v);
    } else {
        let m = (-(v as int)) as nat;
        lemma_u64_chars(m);
        let d = spec_u64_chars(m);
        let s = seq!['-'] + d;
        assert(s[0] == '-');
        assert(s.drop_first() =~= d);
        assert(m <= (i64::MAX as int) + 1);
        assert((-digits_val(d)) as i64 == v);
    }
}

/// Every character of an `i64`'s printed form is a digit or the minus sign.
pub proof fn lemma_i64_chars_shape(v: int)
    ensures
        spec_i64_chars(v).len() >= 1,
        forall|i: int|
            0 <= i < spec_i64_chars(v).len() ==> (is_digit(#[trigger] spec_i64_chars(v)[i])
                || spec_i64_chars(v)[i] == '-'),
{
    if v >= 0 {
        lemma_u64_chars(v as nat);
    } else {
        lemma_u64_chars((-v) as nat);
        let d = spec_u64_chars((-v) as nat);
        let s = seq!['-'] + d;
        assert(forall|i: int| 1 <= i < s.len() ==> s[i] == d[i - 1]);
    }
}

/// Appends the decimal digits of `n`.
pub fn push_u64_chars(out: &mut Vec<char>, n: u64)
    ensures
        final(out)@ == old(out)@ + spec_u64_chars(n as nat),
    decreases n,
{
    if n < 10 {
        let c = ((48 + n as u8)) as char;
        proof {
            assert(c == dec_digit(n as int));
            assert(old(out)@.push(c) =~= old(out)@ + spec_u64_chars(n as nat));
        }
        out.push(c);
    } else {
        push_u64_chars(out, n / 10);
        let d = (n % 10) as u8;
        let c = (48 + d) as char;
        proof {
            assert(c == dec_digit((n % 10) as int));
            assert((old(out)@ + spec_u64_chars((n / 10) as nat)).push(c) =~= old(out)@
                + spec_u64_chars(n as nat));
        }
        out.push(c);
    }
}

/// Appends the decimal form of `v`, with a minus sign when negative.
pub fn push_i64_chars(out: &mut Vec<char>, v: i64)
    ensures
        final(out)@ == old(out)@ + spec_i64_chars(v as int),
{
    if v >= 0 {
        push_u64_chars(out, v as u64);
    } else {
        out.push('-');
        // the magnitude of any negative i64 fits in u64
        let m: u64 = ((-(v + 1)) as u64) + 1;
        proof {
            assert(m == (-(v as int)) as nat);
        }
        push_u64_chars(out, m);
        proof {
            assert(old(out)@.push('-') + spec_u64_chars(m as nat) =~= old(out)@ + spec_i64_chars(
                v as int,
            ));
        }
    }
}

/// Parses `v[start..]` as an unsigned digit string.
fn parse_digits(v: &Vec<char>, start: usize) -> (r: Option<u64>)
    requires
        start <= v@.len(),
    ensures
        ({
            let t = v@.skip(start as int);
            r == (if t.len() == 0 || !all_digits(t) || digits_val(t) > u64::MAX {
                None::<u64>
            } else {
                Some(digits_val(t) as u64)
            })
        }),
{
    let ghost t = v@.skip(start as int);
    if start == v.len() {
        return None;
    }
    let mut acc: u64 = 0;
    let mut i: usize = start;
    while i < v.len()
        invariant
            start <= i <= v@.len(),
            start < v@.len(),
            t == v@.skip(start as int),
            all_digits(t.take(i - start)),
            acc == digits_val(t.take(i - start)),
        decreases v.len() - i,
    {
        let c = v[i];
        let u = c as u32;
        proof {
            assert(t[i - start] == v@[i as int]);
            assert(t.take(i - start + 1).drop_last() =~= t.take(i - start));
            assert(t.take(i - start + 1)[i - start] == t[i - start]);
        }
        if u < 48 || u > 57 {
            proof {
                assert(!is_digit(t[i - start]));
            }
            return None;
        }
        let d = (u - 48) as u64;
        let step = acc.checked_mul(10);
        match step {
            None => {
                proof {
                    lemma_digits_val_grows(t, i - start + 1);
                    assert(digits_val(t.take(i - start + 1)) > u64::MAX);
                }
                return None;
            },
            Some(acc10) => {
                let step2 = acc10.checked_add(d);
                match step2 {
                    None => {
                        proof {
                            lemma_digits_val_grows(t, i - start + 1);
                            assert(digits_val(t.take(i - start + 1)) > u64::MAX);
                        }
                        return None;
                    },
                    Some(acc2) => {
                        acc = acc2;
                    },
                }
            },
        }
        i = i + 1;
    }
    proof {
        assert(t.take(t.len() as int) =~= t);
    }
    Some(acc)
}

/// Once a digit prefix exceeds `u64::MAX`, so does every digit extension.
proof fn lemma_digits_val_grows(t: Seq<char>, k: int)
    requires
        0 <= k <= t.len(),
        digits_val(t.take(k)) > u64::MAX,
    ensures
        !all_digits(t) || digits_val(t) > u64::MAX,
    decreases t.len() - k,
{
    if k == t.len() {
        assert(t.take(k) =~= t);
    } else {
        if all_digits(t) {
            assert(t.take(k + 1).drop_last() =~= t.take(k));
            assert(is_digit(t[k]));
            assert(t.take(k + 1)[k] == t[k]);
            assert(digits_val(t.take(k + 1)) == digits_val(t.take(k)) * 10 + (t[k] as u32 - 48));
            assert(digits_val(t.take(k + 1)) > u64::MAX);
            lemma_digits_val_grows(t, k + 1);
        }
    }
}

/// Parses the characters as a `u64`, as `u64::from_str` would.
pub fn parse_u64_chars(v: &Vec<char>) -> (r: Option<u64>)
    ensures
        r == spec_parse_u64(v@),
{
    if v.len() > 0 && v[0] == '+' {
        proof {
            assert(v@.drop_first() =~= v@.skip(1));
        }
        parse_digits(v, 1)
    } else {
        proof {
            assert(v@.skip(0) =~= v@);
        }
        parse_digits(v, 0)
    }
}

/// Parses the characters as an `i64`, as `i64::from_str` would.
pub fn parse_i64_chars(v: &Vec<char>) -> (r: Option<i64>)
    ensures
        r == spec_parse_i64(v@),
{
    if v.len() > 0 && v[0] == '-' {
        proof {
            assert(v@.drop_first() =~= v@.skip(1));
        }
        let m = parse_digits(v, 1);
        match m {
            None => None,
            Some(mag) => {
                proof {
                    lemma_digits_val_nonneg(v@.drop_first());
                }
                if mag > 9223372036854775808u64 {
                    None
                } else {
                    let r: i64 = if mag == 9223372036854775808u64 {
                        i64::MIN
                    } else {
                        -(mag as i64)
                    };
                    proof {
                        let t = v@.drop_first();
                        lemma_digits_val_nonneg(t);
                        assert(digits_val(t) == mag as int);
                        assert(r as int == -(mag as int));
                    }
                    Some(r)
                }
            },
        }
    } else if v.len() > 0 && v[0] == '+' {
        proof {
            assert(v@.drop_first() =~= v@.skip(1));
        }
        let m = parse_digits(v, 1);
        match m {
            None => None,
            Some(mag) => {
                proof {
                    lemma_digits_val_nonneg(v@.drop_first());
                }
                if mag > i64::MAX as u64 {
                    None
                } else {
                    Some(mag as i64)
                }
            },
        }
    } else {
        proof {
            assert(v@.skip(0) =~= v@);
        }
        let m = parse_digits(v, 0);
        match m {
            None => None,
            Some(mag) => {
                proof {
                    if v@.len() > 0 && v@[0] == '+' {
                        lemma_digits_val_nonneg(v@.drop_first());
                    } else {
                        lemma_digits_val_nonneg(v@);
                    }
                }
                if mag > i64::MAX as u64 {
                    None
                } else {
                    Some(mag as i64)
                }
            },
        }
    }
}

} // verus!
