//! Decimal integers: reading them as `i64`'s `FromStr` does, and writing
//! them as `{}` and `{:02}` do.

use vstd::prelude::*;
use crate::text::{digit_char, digit_of, digit_value, is_digit, lemma_digit_char, white_space};

verus! {

/// Every character of `s` is an ASCII digit.
pub open spec fn all_digits(s: Seq<char>) -> bool {
    forall|i: int| 0 <= i < s.len() ==> is_digit(#[trigger] s[i])
}

/// The value of a run of decimal digits, most significant first.
pub open spec fn digits_value(s: Seq<char>) -> int
    decreases s.len(),
{
    if s.len() == 0 {
        0
    } else {
        digits_value(s.drop_last()) * 10 + digit_value(s.last())
    }
}

/// What `s.parse::<i64>()` gives: an optional `+` or `-`, then at least one
/// ASCII digit and nothing else, with the value in the range of `i64`.
pub open spec fn parse_int(s: Seq<char>) -> Option<int> {
    if s.len() > 0 && (s[0] == '+' || s[0] == '-') {
        let d = s.drop_first();
        let v = if s[0] == '-' {
            -digits_value(d)
        } else {
            digits_value(d)
        };
        if d.len() > 0 && all_digits(d) && i64::MIN <= v <= i64::MAX {
            Some(v)
        } else {
            None
        }
    } else if s.len() > 0 && all_digits(s) && digits_value(s) <= i64::MAX {
        Some(digits_value(s))
    } else {
        None
    }
}

pub proof fn lemma_digits_value_nonneg(s: Seq<char>)
    requires
        all_digits(s),
    ensures
        digits_value(s) >= 0,
    decreases s.len(),
{
    if s.len() > 0 {
        assert(is_digit(s[s.len() - 1]));
        lemma_digits_value_nonneg(s.drop_last());
    }
}

pub proof fn lemma_digits_value_push(s: Seq<char>, c: char)
    ensures
        digits_value(s.push(c)) == digits_value(s) * 10 + digit_value(c),
{
    assert(s.push(c).drop_last() =~= s);
}

/// `v[lo..hi]` read as an `i64`, as `str::parse::<i64>` reads it.
pub fn parse_i64(v: &Vec<char>, lo: usize, hi: usize) -> (r: Option<i64>)
    requires
        lo <= hi <= v.len(),
    ensures
        match r {
            Some(n) => parse_int(v@.subrange(lo as int, hi as int)) == Some(n as int),
            None => parse_int(v@.subrange(lo as int, hi as int)) is None,
        },
{
    let ghost s = v@.subrange(lo as int, hi as int);
    if lo == hi {
        return None;
    }
    let mut i = lo;
    let mut neg = false;
    if v[lo] == '+' {
        i = lo + 1;
    } else if v[lo] == '-' {
        neg = true;
        i = lo + 1;
    }
    let start = i;
    let ghost d = v@.subrange(start as int, hi as int);
    assert(s[0] == '+' || s[0] == '-' ==> s.drop_first() =~= d);
    assert(!(s[0] == '+' || s[0] == '-') ==> s =~= d);
    if start == hi {
        return None;
    }
    let limit: u128 = 0x8000_0000_0000_0000;
    let mut mag: u128 = 0;
    let mut big = false;
    while i < hi
        invariant
            lo <= start <= i <= hi <= v.len(),
            d == v@.subrange(start as int, hi as int),
            s == v@.subrange(lo as int, hi as int),
            s.len() > 0,
            d.len() > 0,
            s[0] == '+' || s[0] == '-' ==> s.drop_first() == d,
            !(s[0] == '+' || s[0] == '-') ==> s == d,
            neg == (s[0] == '-'),
            all_digits(v@.subrange(start as int, i as int)),
            !big ==> mag == digits_value(v@.subrange(start as int, i as int)),
            big ==> digits_value(v@.subrange(start as int, i as int)) > limit,
            mag <= limit,
            limit == 0x8000_0000_0000_0000u128,
        decreases hi - i,
    {
        let ghost pre = v@.subrange(start as int, i as int);
        assert(v@.subrange(start as int, i + 1) =~= pre.push(v@[i as int]));
        proof {
            lemma_digits_value_push(pre, v@[i as int]);
            lemma_digits_value_nonneg(pre);
        }
        match digit_of(v[i]) {
            None => {
                assert(d[i - start] == v@[i as int]);
                assert(!is_digit(d[i - start]));
                assert(!all_digits(d));
                return None;
            },
            Some(dg) => {
                if !big {
                    let n = mag * 10 + dg as u128;
                    if n > limit {
                        big = true;
                    } else {
                        mag = n;
                    }
                }
            },
        }
        i = i + 1;
    }
    assert(v@.subrange(start as int, i as int) =~= d);
    if big {
        return None;
    }
    if neg {
        if mag <= limit {
            let m = mag as i128;
            Some((0 - m) as i64)
        } else {
            None
        }
    } else {
        if mag < limit {
            Some(mag as i64)
        } else {
            None
        }
    }
}

/// The decimal digits of `n`, as `{}` writes them.
pub open spec fn decimal(n: nat) -> Seq<char>
    decreases n,
{
    if n < 10 {
        seq![digit_char(n as int)]
    } else {
        decimal(n / 10).push(digit_char((n % 10) as int))
    }
}

/// `n` written with at least two digits, as `{:02}` writes it.
pub open spec fn pad2(n: nat) -> Seq<char> {
    if n < 10 {
        seq!['0', digit_char(n as int)]
    } else {
        decimal(n)
    }
}

pub proof fn lemma_decimal(n: nat)
    ensures
        decimal(n).len() >= 1,
        all_digits(decimal(n)),
        digits_value(decimal(n)) == n,
        !decimal(n).contains(':'),
        !white_space(decimal(n)[0]),
        !white_space(decimal(n).last()),
        decimal(n)[0] != '+' && decimal(n)[0] != '-',
    decreases n,
{
    if n < 10 {
        lemma_digit_char(n as int);
        assert(seq![digit_char(n as int)].drop_last() =~= Seq::<char>::empty());
        assert(digits_value(Seq::<char>::empty()) == 0);
    } else {
        assert(n == (n / 10) * 10 + n % 10);
        lemma_decimal(n / 10);
        lemma_digit_char((n % 10) as int);
        let p = decimal(n / 10);
        lemma_digits_value_push(p, digit_char((n % 10) as int));
        assert(all_digits(decimal(n))) by {
            assert forall|i: int| 0 <= i < decimal(n).len() implies is_digit(
                #[trigger] decimal(n)[i],
            ) by {
                if i < p.len() {
                    assert(decimal(n)[i] == p[i]);
                }
            }
        }
        assert(!decimal(n).contains(':')) by {
            if decimal(n).contains(':') {
                let i = choose|i: int| 0 <= i < decimal(n).len() && decimal(n)[i] == ':';
                if i < p.len() {
                    assert(p[i] == ':');
                }
            }
        }
    }
}

pub proof fn lemma_pad2(n: nat)
    ensures
        pad2(n).len() >= 2,
        all_digits(pad2(n)),
        digits_value(pad2(n)) == n,
        !pad2(n).contains(':'),
        !white_space(pad2(n)[0]),
        !white_space(pad2(n).last()),
        pad2(n)[0] != '+' && pad2(n)[0] != '-',
{
    if n < 10 {
        lemma_digit_char(n as int);
        let s = seq!['0', digit_char(n as int)];
        assert(s.drop_last() =~= seq!['0']);
        assert(seq!['0'].drop_last() =~= Seq::<char>::empty());
        assert(digits_value(Seq::<char>::empty()) == 0);
        assert(digits_value(seq!['0']) == 0);
        assert(all_digits(s)) by {
            assert forall|i: int| 0 <= i < s.len() implies is_digit(#[trigger] s[i]) by {}
        }
    } else {
        lemma_decimal(n);
        lemma_decimal(n / 10);
    }
}

/// Calls `String::push`, trusted to append exactly `c` to `s`, as std
/// documents it.
#[verifier::external_body]
pub(crate) fn push_char(s: &mut String, c: char)
    ensures
        final(s)@ == old(s)@.push(c),
{
    s.push(c);
}

/// Appends the decimal digits of `n`.
pub fn push_decimal(out: &mut String, n: u64)
    ensures
        final(out)@ == old(out)@ + decimal(n as nat),
    decreases n,
{
    if n >= 10 {
        push_decimal(out, n / 10);
    }
    let d = (n % 10) as u32;
    let c = if d == 0 {
        '0'
    } else if d == 1 {
        '1'
    } else if d == 2 {
        '2'
    } else if d == 3 {
        '3'
    } else if d == 4 {
        '4'
    } else if d == 5 {
        '5'
    } else if d == 6 {
        '6'
    } else if d == 7 {
        '7'
    } else if d == 8 {
        '8'
    } else {
        '9'
    };
    push_char(out, c);
    assert(out@ =~= old(out)@ + decimal(n as nat));
}

/// Appends `n` with at least two digits.
pub fn push_pad2(out: &mut String, n: u64)
    ensures
        final(out)@ == old(out)@ + pad2(n as nat),
{
    if n < 10 {
        push_char(out, '0');
    }
    push_decimal(out, n);
    proof {
        assert(final(out)@ =~= old(out)@ + pad2(n as nat));
    }
}

} // verus!
