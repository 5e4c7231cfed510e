//! Signed integers written in base 10.
//!
//! A numeral is an optional sign, `+` or `-`, and one or more of the digits `0` to `9`.
//! Leading zeros are read and never written.
use vstd::prelude::*;
use vstd::string::StringExecFns;

verus! {

/// Whether `c` is one of the digits `0` to `9`.
pub open spec fn is_digit(c: char) -> bool {
    '0' <= c && c <= '9'
}

/// The number a digit stands for.
pub open spec fn digit_value(c: char) -> nat {
    (c as int - '0' as int) as nat
}

/// The digit that stands for `d`, a number below ten.
pub open spec fn digit_char(d: nat) -> char {
    ('0' as int + d) as char
}

/// Whether `s` holds digits only.
pub open spec fn all_digits(s: Seq<char>) -> bool {
    forall|i: int| 0 <= i < s.len() ==> is_digit(#[trigger] s[i])
}

/// The number that a run of digits denotes, most significant digit first.
pub open spec fn digits_value(s: Seq<char>) -> nat
    decreases s.len(),
{
    if s.len() == 0 {
        0
    } else {
        digits_value(s.drop_last()) * 10 + digit_value(s.last())
    }
}

/// Whether `s` begins with a sign.
pub open spec fn has_sign(s: Seq<char>) -> bool {
    s.len() > 0 && (s[0] == '-' || s[0] == '+')
}

/// The integer that `s` denotes, or `None` where `s` is no numeral.
pub open spec fn numeral_value(s: Seq<char>) -> Option<int> {
    let digits = if has_sign(s) {
        s.skip(1)
    } else {
        s
    };
    if digits.len() > 0 && all_digits(digits) {
        if has_sign(s) && s[0] == '-' {
            Some(-(digits_value(digits) as int))
        } else {
            Some(digits_value(digits) as int)
        }
    } else {
        None
    }
}

/// The `i64` that `s` denotes, or `None` where `s` is no numeral or denotes a number
/// that no `i64` holds.
pub open spec fn numeral_i64(s: Seq<char>) -> Option<i64> {
    match numeral_value(s) {
        Some(v) => if i64::MIN <= v <= i64::MAX {
            Some(v as i64)
        } else {
            None
        },
        None => None,
    }
}

/// The digits of `n`, without leading zeros; `0` is written as one digit.
pub open spec fn nat_text(n: nat) -> Seq<char>
    decreases n,
{
    if n < 10 {
        seq![digit_char(n)]
    } else {
        nat_text(n / 10).push(digit_char(n % 10))
    }
}

/// The numeral for `v`: its digits, after a `-` where `v` is negative.
pub open spec fn int_text(v: int) -> Seq<char> {
    if v < 0 {
        seq!['-'] + nat_text((-v) as nat)
    } else {
        nat_text(v as nat)
    }
}

/// A run of digits denotes at least what any of its beginnings denotes.
proof fn lemma_digits_value_grows(s: Seq<char>, k: int)
    requires
        0 <= k <= s.len(),
    ensures
        digits_value(s.take(k)) <= digits_value(s),
    decreases s.len(),
{
    if k == s.len() {
        assert(s.take(k) == s);
    } else {
        assert(s.drop_last().take(k) == s.take(k));
        lemma_digits_value_grows(s.drop_last(), k);
    }
}

/// What `nat_text` writes is a run of digits that denotes `n`, and it begins with no
/// sign.
proof fn lemma_nat_text(n: nat)
    ensures
        nat_text(n).len() > 0,
        all_digits(nat_text(n)),
        digits_value(nat_text(n)) == n,
        !has_sign(nat_text(n)),
    decreases n,
{
    if n < 10 {
        let s = nat_text(n);
        assert(s.len() == 1 && s[0] == digit_char(n));
        assert(s.drop_last().len() == 0);
        assert(digits_value(s.drop_last()) == 0);
    } else {
        lemma_nat_text(n / 10);
        let head = nat_text(n / 10);
        let s = nat_text(n);
        assert(s == head.push(digit_char(n % 10)));
        assert(s.drop_last() == head);
        assert(s[0] == head[0]);
        assert forall|i: int| 0 <= i < s.len() implies is_digit(#[trigger] s[i]) by {
            if i < head.len() {
                assert(s[i] == head[i]);
            }
        }
    }
}

/// Reading what was written gives the number back: the numeral for an `i64` denotes
/// that `i64`.
pub proof fn lemma_read_written(v: i64)
    ensures
        numeral_i64(int_text(v as int)) == Some(v),
{
    if v < 0 {
        let n = (-(v as int)) as nat;
        lemma_nat_text(n);
        let s = int_text(v as int);
        assert(s[0] == '-');
        assert(s.skip(1) == nat_text(n));
    } else {
        lemma_nat_text(v as nat);
    }
}

/// A numeral holds digits and, in front, perhaps a sign: no dot.
pub proof fn lemma_numeral_has_no_dot(s: Seq<char>)
    requires
        numeral_value(s) is Some,
    ensures
        forall|i: int| 0 <= i < s.len() ==> s[i] != '.',
{
    let start: int = if has_sign(s) {
        1
    } else {
        0
    };
    let digits = s.skip(start);
    assert(digits == if has_sign(s) {
        s.skip(1)
    } else {
        s
    });
    assert forall|i: int| 0 <= i < s.len() implies s[i] != '.' by {
        if i >= start {
            assert(s[i] == digits[i - start]);
            assert(is_digit(digits[i - start]));
        }
    }
}

/// The largest magnitude of an `i64`, that of the lowest one.
const MAGNITUDE_LIMIT: u64 = 0x8000_0000_0000_0000;

/// Reads `s` as a signed integer in base 10.
///
/// A sign may stand in front, `+` or `-`; at least one digit follows and nothing
/// else. The result is `None` for anything else and for a number that no `i64` holds.
pub fn parse_i64(s: &[char]) -> (r: Option<i64>)
    ensures
        r == numeral_i64(s@),
{
    let n = s.len();
    let signed = n > 0 && (s[0] == '-' || s[0] == '+');
    let start: usize = if signed {
        1
    } else {
        0
    };
    if start == n {
        return None;
    }
    let ghost digits = if signed {
        s@.skip(1)
    } else {
        s@
    };
    let mut magnitude: u64 = 0;
    let mut i: usize = start;
    while i < n
        invariant
            start <= i <= n,
            n == s@.len(),
            signed == has_sign(s@),
            start == if signed { 1usize } else { 0usize },
            digits == if signed { s@.skip(1) } else { s@ },
            digits.len() == n - start,
            all_digits(digits.take(i - start)),
            magnitude == digits_value(digits.take(i - start)),
            magnitude <= MAGNITUDE_LIMIT,
        decreases n - i,
    {
        let c = s[i];
        let ghost read = digits.take(i - start);
        let ghost next = digits.take(i - start + 1);
        proof {
            assert(next.drop_last() == read);
            assert(next.last() == digits[i - start]);
            assert(digits[i - start] == c);
        }
        if !(c >= '0' && c <= '9') {
            proof {
                assert(!is_digit(digits[i - start]));
            }
            return None;
        }
        let d: u64 = (c as u64) - ('0' as u64);
        if magnitude > (MAGNITUDE_LIMIT - d) / 10 {
            proof {
                assert(digits_value(next) > MAGNITUDE_LIMIT);
                if all_digits(digits) {
                    lemma_digits_value_grows(digits, i - start + 1);
                }
            }
            return None;
        }
        magnitude = magnitude * 10 + d;
        proof {
            assert forall|j: int| 0 <= j < next.len() implies is_digit(#[trigger] next[j]) by {
                if j < read.len() {
                    assert(next[j] == read[j]);
                }
            }
        }
        i += 1;
    }
    proof {
        assert(digits.take(n - start) == digits);
    }
    if signed && s[0] == '-' {
        if magnitude == MAGNITUDE_LIMIT {
            Some(i64::MIN)
        } else {
            Some(-(magnitude as i64))
        }
    } else if magnitude == MAGNITUDE_LIMIT {
        None
    } else {
        Some(magnitude as i64)
    }
}

/// The digit for `d` as a string of one character.
fn digit_str(d: u8) -> (r: &'static str)
    requires
        d < 10,
    ensures
        r@ == seq![digit_char(d as nat)],
{
    proof {
        reveal_strlit("0");
        reveal_strlit("1");
        reveal_strlit("2");
        reveal_strlit("3");
        reveal_strlit("4");
        reveal_strlit("5");
        reveal_strlit("6");
        reveal_strlit("7");
        reveal_strlit("8");
        reveal_strlit("9");
    }
    let r = match d {
        0 => "0",
        1 => "1",
        2 => "2",
        3 => "3",
        4 => "4",
        5 => "5",
        6 => "6",
        7 => "7",
        8 => "8",
        _ => "9",
    };
    assert(r@ =~= seq![digit_char(d as nat)]);
    r
}

/// Writes the digits of `n` at the end of `out`.
fn push_nat(out: &mut String, n: u64)
    ensures
        final(out)@ == old(out)@ + nat_text(n as nat),
    decreases n,
{
    if n >= 10 {
        push_nat(out, n / 10);
    }
    out.append(digit_str((n % 10) as u8));
}

/// Writes the numeral for `v` at the end of `out`.
pub fn push_i64(out: &mut String, v: i64)
    ensures
        final(out)@ == old(out)@ + int_text(v as int),
{
    if v < 0 {
        proof {
            reveal_strlit("-");
        }
        out.append("-");
        // The magnitude of the lowest `i64` is no `i64`: count up from -(v + 1).
        let magnitude: u64 = ((-(v + 1)) as u64) + 1;
        push_nat(out, magnitude);
        assert(out@ =~= old(out)@ + int_text(v as int));
    } else {
        push_nat(out, v as u64);
    }
}

} // verus!
