//! Signed decimal numbers as text: writing an `i64` and reading one back.

use vstd::prelude::*;
use vstd::string::*;

verus! {

/// The character of one decimal digit.
pub open spec fn digit_char(d: nat) -> char
    recommends
        d < 10,
{
    if d == 0 {
        '0'
    } else if d == 1 {
        '1'
    } else if d == 2 {
        '2'
    } else if d == 3 {
        '3'
    } else if d == 4 {
        '4'
    } else if d == 5 {
        '5'
    } else if d == 6 {
        '6'
    } else if d == 7 {
        '7'
    } else if d == 8 {
        '8'
    } else {
        '9'
    }
}

/// Whether `c` is one of the ten ASCII digits.
pub open spec fn is_digit(c: char) -> bool {
    '0' <= c <= '9'
}

/// The number that the digit `c` stands for.
pub open spec fn digit_value(c: char) -> nat
    recommends
        is_digit(c),
{
    (c as nat - '0' as nat) as nat
}

/// Whether every character of `s` is an ASCII digit.
pub open spec fn all_digits(s: Seq<char>) -> bool {
    forall|i: int| 0 <= i < s.len() ==> is_digit(#[trigger] s[i])
}

/// The number that a run of digits stands for, the first digit weighing most.
pub open spec fn digits_value(s: Seq<char>) -> nat
    decreases s.len(),
{
    if s.len() == 0 {
        0
    } else {
        digits_value(s.drop_last()) * 10 + digit_value(s.last())
    }
}

/// The digits of `n`, without leading zeros; `0` is the single digit zero.
pub open spec fn decimal_digits(n: nat) -> Seq<char>
    decreases n,
{
    if n < 10 {
        seq![digit_char(n)]
    } else {
        decimal_digits(n / 10).push(digit_char(n % 10))
    }
}

/// The decimal text of `n`: a minus sign for a negative number, then the
/// digits of its magnitude.
pub open spec fn format_i64(n: i64) -> Seq<char> {
    if n < 0 {
        seq!['-'] + decimal_digits((-(n as int)) as nat)
    } else {
        decimal_digits(n as nat)
    }
}

/// The number that the text `s` stands for, if it is one that fits an `i64`:
/// an optional sign (`+` or `-`), then one digit or more, and nothing else.
pub open spec fn parse_i64(s: Seq<char>) -> Option<i64> {
    let negative = s.len() > 0 && s[0] == '-';
    let signed = s.len() > 0 && (s[0] == '-' || s[0] == '+');
    let digits = if signed {
        s.drop_first()
    } else {
        s
    };
    let magnitude = digits_value(digits) as int;
    if digits.len() == 0 || !all_digits(digits) {
        None
    } else if negative {
        if magnitude <= 0x8000_0000_0000_0000 {
            Some((-magnitude) as i64)
        } else {
            None
        }
    } else {
        if magnitude <= 0x7fff_ffff_ffff_ffff {
            Some(magnitude as i64)
        } else {
            None
        }
    }
}

/// A run of digits stands for at least as much as any of its beginnings.
pub proof fn lemma_digits_value_grows(s: Seq<char>, k: int)
    requires
        0 <= k <= s.len(),
    ensures
        digits_value(s.take(k)) <= digits_value(s),
    decreases s.len(),
{
    if k == s.len() {
        assert(s.take(k) == s);
    } else {
        lemma_digits_value_grows(s.drop_last(), k);
        assert(s.drop_last().take(k) == s.take(k));
    }
}

/// The digits written for `n` are digits, hold no other character, and stand
/// for `n`.
pub proof fn lemma_decimal_digits(n: nat)
    ensures
        decimal_digits(n).len() >= 1,
        all_digits(decimal_digits(n)),
        digits_value(decimal_digits(n)) == n,
    decreases n,
{
    if n < 10 {
        let s = decimal_digits(n);
        assert(s.drop_last().len() == 0);
        assert(digits_value(s.drop_last()) == 0);
        assert(digit_value(digit_char(n)) == n);
    } else {
        lemma_decimal_digits(n / 10);
        let head = decimal_digits(n / 10);
        let s = decimal_digits(n);
        assert(s.drop_last() == head);
        assert(s.last() == digit_char(n % 10));
        assert(digit_value(digit_char(n % 10)) == n % 10);
        assert(is_digit(digit_char(n % 10)));
        assert forall|i: int| 0 <= i < s.len() implies is_digit(#[trigger] s[i]) by {
            if i < head.len() {
                assert(s[i] == head[i]);
            }
        }
    }
}

/// The text of a number holds digits and, in the first place only, a minus
/// sign: no other character.
pub proof fn lemma_format_chars(n: i64)
    ensures
        format_i64(n).len() >= 1,
        forall|i: int|
            0 <= i < format_i64(n).len() ==> is_digit(#[trigger] format_i64(n)[i]) || (i == 0
                && format_i64(n)[i] == '-'),
        is_digit(format_i64(n).last()),
{
    if n < 0 {
        let m = (-(n as int)) as nat;
        lemma_decimal_digits(m);
        let digits = decimal_digits(m);
        assert forall|i: int| 0 <= i < format_i64(n).len() implies is_digit(
            #[trigger] format_i64(n)[i],
        ) || (i == 0 && format_i64(n)[i] == '-') by {
            if i > 0 {
                assert(format_i64(n)[i] == digits[i - 1]);
            }
        }
        assert(format_i64(n).last() == digits.last());
    } else {
        lemma_decimal_digits(n as nat);
    }
}

/// Reading back what was written gives the number that was written.
pub proof fn lemma_parse_format(n: i64)
    ensures
        parse_i64(format_i64(n)) == Some(n),
{
    if n < 0 {
        let m = (-(n as int)) as nat;
        lemma_decimal_digits(m);
        let s = format_i64(n);
        assert(s[0] == '-');
        assert(s.drop_first() == decimal_digits(m));
    } else {
        lemma_decimal_digits(n as nat);
        let s = format_i64(n);
        assert(is_digit(s[0]));
    }
}

/// The text of one digit.
fn digit_str(d: u64) -> (text: &'static str)
    requires
        d < 10,
    ensures
        text@ == seq![digit_char(d as nat)],
{
    proof {
        reveal_strlit("0");
        reveal_strlit("1");
        reveal_strlit("2");
        reveal_strlit("3");
        reveal_strlit("4");
        reveal_strlit("5");
        reveal_strlit("6");
        reveal_strlit("7");
        reveal_strlit("8");
        reveal_strlit("9");
    }
    let text = if d == 0 {
        "0"
    } else if d == 1 {
        "1"
    } else if d == 2 {
        "2"
    } else if d == 3 {
        "3"
    } else if d == 4 {
        "4"
    } else if d == 5 {
        "5"
    } else if d == 6 {
        "6"
    } else if d == 7 {
        "7"
    } else if d == 8 {
        "8"
    } else {
        "9"
    };
    assert(text@ =~= seq![digit_char(d as nat)]);
    text
}

/// Appends the digits of `n` to `out`.
fn push_digits(out: &mut String, n: u64)
    ensures
        final(out)@ == old(out)@ + decimal_digits(n as nat),
    decreases n,
{
    if n >= 10 {
        push_digits(out, n / 10);
    }
    out.append(digit_str(n % 10));
    assert(out@ =~= old(out)@ + decimal_digits(n as nat));
}

/// Appends the decimal text of `n` to `out`.
pub fn push_i64(out: &mut String, n: i64)
    ensures
        final(out)@ == old(out)@ + format_i64(n),
{
    if n < 0 {
        proof {
            reveal_strlit("-");
        }
        out.append("-");
        let magnitude: u64 = (-(n + 1)) as u64 + 1;
        push_digits(out, magnitude);
        assert(out@ =~= old(out)@ + format_i64(n));
    } else {
        push_digits(out, n as u64);
    }
}

/// The decimal text of `n`.
pub fn i64_to_string(n: i64) -> (text: String)
    ensures
        text@ == format_i64(n),
{
    let mut text = String::new();
    push_i64(&mut text, n);
    assert(text@ =~= format_i64(n));
    text
}

/// Reads a number from the part of `text` between `from` and `to`, which
/// must hold an optional sign and then digits only; `None` where it holds
/// anything else or the number does not fit.
#[verifier::loop_isolation(false)]
pub fn parse_decimal_in(text: &Vec<char>, from: usize, to: usize) -> (number: Option<i64>)
    requires
        from <= to <= text@.len(),
    ensures
        number == parse_i64(text@.subrange(from as int, to as int)),
{
    let ghost whole = text@.subrange(from as int, to as int);
    let negative = from < to && text[from] == '-';
    let signed = from < to && (text[from] == '-' || text[from] == '+');
    let start: usize = if signed { from + 1 } else { from };
    let ghost digits = if signed { whole.drop_first() } else { whole };
    if start == to {
        return None;
    }
    let limit: u64 = if negative { 0x8000_0000_0000_0000 } else { 0x7fff_ffff_ffff_ffff };
    let mut magnitude: u64 = 0;
    let mut i: usize = start;
    while i < to
        invariant
            start <= i <= to,
            magnitude == digits_value(digits.take(i - start)),
            magnitude <= limit,
            forall|k: int| 0 <= k < i - start ==> is_digit(#[trigger] digits[k]),
        decreases to - i,
    {
        let c = text[i];
        assert(digits[i - start] == c);
        if !('0' <= c && c <= '9') {
            assert(!is_digit(digits[i - start]));
            return None;
        }
        let d: u64 = (c as u32 - '0' as u32) as u64;
        assert(d == digit_value(c) && d < 10);
        proof {
            let head = digits.take(i - start + 1);
            assert(head.drop_last() == digits.take(i - start));
            assert(head.last() == c);
            assert(digits_value(head) == magnitude * 10 + d);
            lemma_digits_value_grows(digits, i - start + 1);
        }
        if magnitude > (limit - d) / 10 {
            return None;
        }
        magnitude = magnitude * 10 + d;
        i += 1;
    }
    assert(digits.take(i - start) == digits);
    if negative {
        if magnitude == 0x8000_0000_0000_0000 {
            Some(i64::MIN)
        } else {
            Some(-(magnitude as i64))
        }
    } else {
        Some(magnitude as i64)
    }
}

/// Reads a number from `text`, which must hold an optional sign and then
/// digits only; `None` where it holds anything else or the number does not
/// fit.
pub fn parse_decimal(text: &Vec<char>) -> (number: Option<i64>)
    ensures
        number == parse_i64(text@),
{
    assert(text@.subrange(0, text@.len() as int) == text@);
    parse_decimal_in(text, 0, text.len())
}

} // verus!
