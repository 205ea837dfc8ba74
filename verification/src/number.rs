//! Reading whole numbers typed by the user, as Rust's standard parsers
//! read them: an optional sign, then at least one decimal digit.
use vstd::prelude::*;
use crate::text::{chars_of, push_char};

verus! {

pub open spec fn is_digit(c: char) -> bool {
    '0' <= c && c <= '9'
}

pub open spec fn all_digits(s: Seq<char>) -> bool {
    forall|i: int| 0 <= i < s.len() ==> is_digit(#[trigger] s[i])
}

/// The value of a string of decimal digits.
pub open spec fn digits_value(s: Seq<char>) -> int
    decreases s.len(),
{
    if s.len() == 0 {
        0
    } else {
        digits_value(s.drop_last()) * 10 + (s.last() as int - '0' as int)
    }
}

/// The value of a decimal numeral: at least one digit and nothing else.
pub open spec fn numeral_value(s: Seq<char>) -> Option<int> {
    if s.len() > 0 && all_digits(s) {
        Some(digits_value(s))
    } else {
        None
    }
}

/// The integer written by `s`: an optional '+' or '-', then a numeral.
pub open spec fn written_int(s: Seq<char>) -> Option<int> {
    if s.len() > 0 && s[0] == '-' {
        match numeral_value(s.skip(1)) {
            Some(v) => Some(-v),
            None => None,
        }
    } else if s.len() > 0 && s[0] == '+' {
        numeral_value(s.skip(1))
    } else {
        numeral_value(s)
    }
}

/// The natural number written by `s`: an optional '+', then a numeral.
pub open spec fn written_nat(s: Seq<char>) -> Option<int> {
    if s.len() > 0 && s[0] == '+' {
        numeral_value(s.skip(1))
    } else {
        numeral_value(s)
    }
}

proof fn lemma_digits_value_nonneg(s: Seq<char>)
    requires
        all_digits(s),
    ensures
        digits_value(s) >= 0,
    decreases s.len(),
{
    if s.len() > 0 {
        assert(is_digit(s[s.len() - 1]));
        lemma_digits_value_nonneg(s.drop_last());
        assert(all_digits(s.drop_last()));
    }
}

proof fn lemma_digits_value_grows(s: Seq<char>, k: int)
    requires
        all_digits(s),
        0 <= k <= s.len(),
    ensures
        digits_value(s.take(k)) <= digits_value(s),
    decreases s.len() - k,
{
    if k < s.len() {
        let t = s.take(k + 1);
        assert(t.drop_last() =~= s.take(k));
        assert(is_digit(t.last()));
        assert(all_digits(t.drop_last()));
        lemma_digits_value_nonneg(t.drop_last());
        lemma_digits_value_grows(s, k + 1);
    } else {
        assert(s.take(k) =~= s);
    }
}

/// The numeral `cs[start..]` when it is no greater than `bound`.
fn numeral_at(cs: &Vec<char>, start: usize, bound: u128) -> (r: Option<u128>)
    requires
        start <= cs@.len(),
        bound <= 0x1_0000_0000_0000_0000u128,
    ensures
        r is Some <==> (numeral_value(cs@.skip(start as int)) matches Some(v) && v <= bound),
        r matches Some(v) ==> numeral_value(cs@.skip(start as int)) == Some(v as int),
{
    let ghost s = cs@.skip(start as int);
    let n = cs.len();
    if start == n {
        return None;
    }
    let mut acc: u128 = 0;
    let mut i: usize = start;
    while i < n
        invariant
            s == cs@.skip(start as int),
            n == cs@.len(),
            start < n,
            start <= i <= n,
            bound <= 0x1_0000_0000_0000_0000u128,
            all_digits(s.take(i - start)),
            acc == digits_value(s.take(i - start)),
            acc <= bound,
        decreases n - i,
    {
        let c = cs[i];
        let ghost k: int = i - start;
        assert(c == s[k]);
        if !('0' <= c && c <= '9') {
            assert(!all_digits(s));
            return None;
        }
        let d = (c as u32 - '0' as u32) as u128;
        assert(s.take(k + 1).drop_last() =~= s.take(k));
        assert(all_digits(s.take(k + 1)));
        acc = acc * 10 + d;
        if acc > bound {
            proof {
                if all_digits(s) {
                    lemma_digits_value_grows(s, k + 1);
                }
            }
            return None;
        }
        i = i + 1;
    }
    assert(s.take(n - start) =~= s);
    Some(acc)
}

/// The `i64` written by `s`, as `str::parse::<i64>` reads it: `None` when
/// `s` is not an optional sign followed by digits, or when the number does
/// not fit in an `i64`.
pub fn parse_i64(s: &str) -> (r: Option<i64>)
    ensures
        r is Some <==> (written_int(s@) matches Some(v) && i64::MIN <= v <= i64::MAX),
        r matches Some(v) ==> written_int(s@) == Some(v as int),
{
    let cs = chars_of(s);
    if cs.len() > 0 && cs[0] == '-' {
        match numeral_at(&cs, 1, 0x8000_0000_0000_0000u128) {
            Some(m) => {
                if m == 0x8000_0000_0000_0000u128 {
                    Some(i64::MIN)
                } else {
                    Some(-(m as i64))
                }
            },
            None => None,
        }
    } else {
        let start: usize = if cs.len() > 0 && cs[0] == '+' {
            1
        } else {
            0
        };
        proof {
            if start == 0 {
                assert(cs@.skip(0) =~= cs@);
            }
        }
        match numeral_at(&cs, start, 0x7fff_ffff_ffff_ffffu128) {
            Some(m) => Some(m as i64),
            None => None,
        }
    }
}

/// The `usize` written by `s`, as `str::parse::<usize>` reads it: `None`
/// when `s` is not an optional '+' followed by digits, or when the number
/// does not fit in a `usize`.
pub fn parse_usize(s: &str) -> (r: Option<usize>)
    ensures
        r is Some <==> (written_nat(s@) matches Some(v) && v <= usize::MAX),
        r matches Some(v) ==> written_nat(s@) == Some(v as int),
{
    let cs = chars_of(s);
    let start: usize = if cs.len() > 0 && cs[0] == '+' {
        1
    } else {
        0
    };
    proof {
        if start == 0 {
            assert(cs@.skip(0) =~= cs@);
        }
    }
    match numeral_at(&cs, start, usize::MAX as u128) {
        Some(m) => Some(m as usize),
        None => None,
    }
}

/// The `u64` written by `s`, as `str::parse::<u64>` reads it: `None` when
/// `s` is not an optional '+' followed by digits, or when the number does
/// not fit in a `u64`.
pub fn parse_u64(s: &str) -> (r: Option<u64>)
    ensures
        r is Some <==> (written_nat(s@) matches Some(v) && v <= u64::MAX),
        r matches Some(v) ==> written_nat(s@) == Some(v as int),
{
    let cs = chars_of(s);
    let start: usize = if cs.len() > 0 && cs[0] == '+' {
        1
    } else {
        0
    };
    proof {
        if start == 0 {
            assert(cs@.skip(0) =~= cs@);
        }
    }
    match numeral_at(&cs, start, 0xffff_ffff_ffff_ffffu128) {
        Some(m) => Some(m as u64),
        None => None,
    }
}

/// The character of the decimal digit `d`.
pub open spec fn digit_char(d: int) -> char {
    (d + 48) as char
}

/// `n` written in decimal, without leading zeros.
pub open spec fn decimal(n: nat) -> Seq<char>
    decreases n,
{
    if n < 10 {
        seq![digit_char(n as int)]
    } else {
        decimal(n / 10).push(digit_char((n % 10) as int))
    }
}

/// `n` written in decimal, as `to_string` writes a `u64`.
pub fn u64_to_decimal(n: u64) -> (r: String)
    ensures
        r@ == decimal(n as nat),
    decreases n,
{
    let d = (n % 10) as u8;
    let c = (d + 48u8) as char;
    if n < 10 {
        let mut s = String::new();
        push_char(&mut s, c);
        assert(s@ =~= seq![digit_char(n as int)]);
        s
    } else {
        let mut s = u64_to_decimal(n / 10);
        push_char(&mut s, c);
        s
    }
}

proof fn lemma_decimal_digits(n: nat)
    ensures
        decimal(n).len() > 0,
        all_digits(decimal(n)),
        digits_value(decimal(n)) == n,
    decreases n,
{
    let d = (n % 10) as int;
    assert(digit_char(d) as int == d + 48);
    if n < 10 {
        assert(decimal(n).drop_last() =~= Seq::<char>::empty());
    }
    if n >= 10 {
        lemma_decimal_digits(n / 10);
        assert(n == (n / 10) * 10 + n % 10);
        let s = decimal(n);
        assert(s.drop_last() =~= decimal(n / 10));
        assert(forall|i: int| 0 <= i < s.len() - 1 ==> s[i] == decimal(n / 10)[i]);
        assert(s.last() == digit_char(d));
        assert(digits_value(s) == digits_value(s.drop_last()) * 10 + (s.last() as int - '0' as int));
        assert(digits_value(s) == (n / 10) * 10 + d);
    } else {
        let s = decimal(n);
        assert(s.last() == digit_char(d));
        assert(digits_value(s) == digits_value(s.drop_last()) * 10 + (s.last() as int - '0' as int));
    }
}

/// Reading back a natural number written in decimal gives the number.
pub proof fn lemma_decimal_reads_back(n: nat)
    ensures
        written_nat(decimal(n)) == Some(n as int),
        written_int(decimal(n)) == Some(n as int),
{
    lemma_decimal_digits(n);
    assert(is_digit(decimal(n)[0]));
}

} // verus!
