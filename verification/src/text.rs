//! Small operations on text: decimal numbers, prefixes and concatenation.

use vstd::prelude::*;

verus! {

broadcast use vstd::string::group_string_axioms;

/// Is `c` one of the ASCII digits?
pub open spec fn is_digit(c: char) -> bool {
    '0' <= c <= '9'
}

/// The number that a run of ASCII digits writes in base ten.
pub open spec fn decimal_value(digits: Seq<char>) -> nat
    decreases digits.len(),
{
    if digits.len() == 0 {
        0
    } else {
        10 * decimal_value(digits.drop_last()) + (digits.last() as nat - '0' as nat) as nat
    }
}

/// The digits of a number as users write it: an optional `+` comes first.
pub open spec fn unsigned_digits(text: Seq<char>) -> Seq<char> {
    if text.len() > 0 && text[0] == '+' {
        text.skip(1)
    } else {
        text
    }
}

/// The unsigned number that `text` writes, if it writes one no larger than `max`.
pub open spec fn unsigned_value(text: Seq<char>, max: nat) -> Option<nat> {
    let digits = unsigned_digits(text);
    if digits.len() > 0 && (forall|i: int| 0 <= i < digits.len() ==> is_digit(#[trigger] digits[i]))
        && decimal_value(digits) <= max {
        Some(decimal_value(digits))
    } else {
        None
    }
}

/// A longer run of digits writes no smaller number.
proof fn lemma_decimal_prefix(digits: Seq<char>, n: int)
    requires
        0 <= n <= digits.len(),
    ensures
        decimal_value(digits.take(n)) <= decimal_value(digits),
    decreases digits.len() - n,
{
    if n < digits.len() {
        lemma_decimal_prefix(digits, n + 1);
        assert(digits.take(n + 1).drop_last() =~= digits.take(n));
    } else {
        assert(digits.take(n) =~= digits);
    }
}

/// Reads an unsigned decimal number no larger than `max`, with an optional
/// leading `+` and nothing else around the digits.
pub fn parse_unsigned(text: &str, max: u64) -> (r: Option<u64>)
    ensures
        r is Some <==> unsigned_value(text@, max as nat) is Some,
        r matches Some(n) ==> unsigned_value(text@, max as nat) == Some(n as nat),
{
    let len: usize = text.unicode_len();
    let start: usize = if len > 0 && text.get_char(0) == '+' { 1 } else { 0 };
    let ghost digits = unsigned_digits(text@);
    assert(digits =~= text@.skip(start as int));
    if start == len {
        return None;
    }
    let mut value: u64 = 0;
    let mut i: usize = start;
    assert(digits.take(0) =~= Seq::<char>::empty());
    while i < len
        invariant
            len == text@.len(),
            start <= i <= len,
            digits == text@.skip(start as int),
            digits == unsigned_digits(text@),
            digits.len() == len - start,
            value == decimal_value(digits.take(i - start)),
            value <= max,
            forall|j: int| 0 <= j < i - start ==> is_digit(#[trigger] digits[j]),
        decreases len - i,
    {
        let c: char = text.get_char(i);
        assert(c == digits[i - start]);
        if c < '0' || c > '9' {
            return None;
        }
        let digit: u64 = (c as u32 - '0' as u32) as u64;
        let wide: u128 = 10 * (value as u128) + digit as u128;
        proof {
            assert(digits.take(i - start + 1).drop_last() =~= digits.take(i - start));
            assert(wide == decimal_value(digits.take(i - start + 1)));
            lemma_decimal_prefix(digits, i - start + 1);
        }
        if wide > max as u128 {
            return None;
        }
        value = wide as u64;
        i = i + 1;
    }
    assert(digits.take(len - start) =~= digits);
    Some(value)
}

/// What follows `prefix` in `text`, if `text` starts with it.
pub fn strip_prefix<'a>(text: &'a str, prefix: &str) -> (r: Option<&'a str>)
    ensures
        r is Some <==> prefix@.is_prefix_of(text@),
        r matches Some(rest) ==> rest@ == text@.skip(prefix@.len() as int),
{
    let len: usize = text.unicode_len();
    let n: usize = prefix.unicode_len();
    if len < n {
        return None;
    }
    let mut i: usize = 0;
    while i < n
        invariant
            len == text@.len(),
            n == prefix@.len(),
            i <= n <= len,
            forall|j: int| 0 <= j < i ==> prefix@[j] == text@[j],
        decreases n - i,
    {
        if text.get_char(i) != prefix.get_char(i) {
            return None;
        }
        i = i + 1;
    }
    assert(prefix@ =~= text@.take(n as int));
    Some(text.substring_char(n, len))
}

/// Are two texts the same?
pub fn same_text(a: &str, b: &str) -> (same: bool)
    ensures
        same == (a@ == b@),
{
    match strip_prefix(a, b) {
        Some(rest) => {
            assert(a@ =~= b@ + rest@);
            assert(rest@.len() == 0 ==> a@ =~= b@);
            rest.is_empty()
        },
        None => {
            assert(b@.is_prefix_of(b@));
            false
        },
    }
}

/// Letters, digits, `-` and `_` of ASCII: what a challenge token is made of.
pub open spec fn is_token_char(c: char) -> bool {
    ||| 'a' <= c <= 'z'
    ||| 'A' <= c <= 'Z'
    ||| is_digit(c)
    ||| c == '-'
    ||| c == '_'
}

/// Is every character of `text` a letter, a digit, `-` or `_` of ASCII?
pub fn all_token_chars(text: &str) -> (all: bool)
    ensures
        all == (forall|i: int| 0 <= i < text@.len() ==> is_token_char(#[trigger] text@[i])),
{
    let mut all: bool = true;
    for c in it: text.chars()
        invariant
            it.seq() == text@,
            all == (forall|i: int| 0 <= i < it.index() ==> is_token_char(#[trigger] text@[i])),
    {
        all = all && (('a' <= c && c <= 'z') || ('A' <= c && c <= 'Z') || ('0' <= c && c <= '9')
            || c == '-' || c == '_');
    }
    all
}

/// A number below ten as a digit.
pub open spec fn digit_char(n: nat) -> char {
    ('0' as nat + n % 10) as char
}

/// A number in base ten, without leading zeros.
pub open spec fn decimal_text(n: nat) -> Seq<char>
    decreases n,
{
    if n < 10 {
        seq![digit_char(n)]
    } else {
        decimal_text(n / 10).push(digit_char(n))
    }
}

/// The digit for a number below ten.
fn digit_str(n: u16) -> (text: &'static str)
    requires
        n < 10,
    ensures
        text@ =~= seq![digit_char(n as nat)],
{
    proof {
        reveal_strlit("0");
        reveal_strlit("1");
        reveal_strlit("2");
        reveal_strlit("3");
        reveal_strlit("4");
        reveal_strlit("5");
        reveal_strlit("6");
        reveal_strlit("7");
        reveal_strlit("8");
        reveal_strlit("9");
    }
    match n {
        0 => "0",
        1 => "1",
        2 => "2",
        3 => "3",
        4 => "4",
        5 => "5",
        6 => "6",
        7 => "7",
        8 => "8",
        _ => "9",
    }
}

/// Writes `n` in base ten.
pub fn decimal(n: u16) -> (text: String)
    ensures
        text@ == decimal_text(n as nat),
    decreases n,
{
    let mut text: String = if n < 10 { String::new() } else { decimal(n / 10) };
    text.append(digit_str(n % 10));
    text
}

/// Reading back a written number gives the number: `decimal_text` and
/// `decimal_value` are inverse to each other.
pub proof fn law_decimal_round_trip(n: nat)
    ensures
        decimal_value(decimal_text(n)) == n,
        forall|i: int| 0 <= i < decimal_text(n).len() ==> is_digit(#[trigger] decimal_text(n)[i]),
    decreases n,
{
    reveal_with_fuel(decimal_value, 2);
    if n < 10 {
        assert(decimal_text(n).drop_last() =~= Seq::<char>::empty());
    } else {
        law_decimal_round_trip(n / 10);
        assert(decimal_text(n).drop_last() =~= decimal_text(n / 10));
    }
}

/// A written number has no leading zero, and one more digit is written behind it.
pub proof fn law_decimal_by_digits(n: nat, d: nat)
    requires
        d < 10,
    ensures
        decimal_text(n).len() > 0,
        n > 0 ==> decimal_text(n)[0] != '0',
        decimal_text(d) =~= seq![('0' as nat + d) as char],
        n > 0 ==> decimal_text(10 * n + d) == decimal_text(n).push(('0' as nat + d) as char),
    decreases n,
{
    if n >= 10 {
        law_decimal_by_digits(n / 10, 0);
        assert(decimal_text(n)[0] == decimal_text(n / 10)[0]);
    }
    if n > 0 {
        assert((10 * n + d) / 10 == n && (10 * n + d) % 10 == d);
    }
}

/// A number is read digit by digit: a digit is its value, and behind a number a
/// digit makes ten times that number and the digit, if that is not too large.
/// Without a digit, and with any other character, nothing is read; a single `+`
/// may go first.
pub proof fn law_unsigned_by_digits(text: Seq<char>, c: char, max: nat, n: nat)
    ensures
        unsigned_value(Seq::empty(), max) is None,
        unsigned_value(seq!['+'], max) is None,
        '0' <= c <= '9' ==> unsigned_value(seq![c], max) == (if c as nat - '0' as nat <= max {
            Some((c as nat - '0' as nat) as nat)
        } else {
            None
        }),
        unsigned_value(text, max) == Some(n) && '0' <= c <= '9' ==> unsigned_value(
            text.push(c),
            max,
        ) == (if 10 * n + (c as nat - '0' as nat) <= max {
            Some((10 * n + (c as nat - '0' as nat)) as nat)
        } else {
            None
        }),
        unsigned_value(text, max) is None && text.len() > 0 && text != seq!['+']
            ==> unsigned_value(text.push(c), max) is None,
        text.len() > 0 && !('0' <= c <= '9') ==> unsigned_value(text.push(c), max) is None,
        !('0' <= c <= '9') ==> unsigned_value(seq![c], max) is None,
        text.len() > 0 && text[0] != '+' ==> unsigned_value(seq!['+'] + text, max)
            == unsigned_value(text, max),
{
    reveal_with_fuel(decimal_value, 2);
    assert(Seq::<char>::empty().push(c) =~= seq![c]);
    assert(seq!['+'].skip(1) =~= Seq::<char>::empty());
    assert(seq![c].drop_last() =~= Seq::<char>::empty());
    assert(seq![c].skip(1) =~= Seq::<char>::empty());
    assert((seq!['+'] + text).skip(1) =~= text);
    if text.len() > 0 {
        let digits = unsigned_digits(text);
        let more = unsigned_digits(text.push(c));
        assert(more =~= digits.push(c));
        assert(more.drop_last() =~= digits);
        if unsigned_value(text.push(c), max) is Some {
            assert(is_digit(more[more.len() - 1]));
            assert forall|i: int| 0 <= i < digits.len() implies is_digit(#[trigger] digits[i]) by {
                assert(more[i] == digits[i]);
            }
            if digits.len() == 0 {
                assert(text =~= seq!['+']);
            }
        }
        if unsigned_value(text, max) is Some && is_digit(c) {
            assert forall|i: int| 0 <= i < more.len() implies is_digit(#[trigger] more[i]) by {
                if i < digits.len() {
                    assert(more[i] == digits[i]);
                }
            }
        }
    }
}

} // verus!
