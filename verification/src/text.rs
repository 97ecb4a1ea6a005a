//! Digests as text: decimal numerals and lower-case hexadecimal.

use vstd::prelude::*;
use vstd::std_specs::iter::IteratorSpec;
use vstd::string::StringExecFns;

verus! {

/// The character for a digit below sixteen: `0` to `9`, then `a` to `f`.
pub open spec fn digit_char(d: int) -> char {
    if d == 0 {
        '0'
    } else if d == 1 {
        '1'
    } else if d == 2 {
        '2'
    } else if d == 3 {
        '3'
    } else if d == 4 {
        '4'
    } else if d == 5 {
        '5'
    } else if d == 6 {
        '6'
    } else if d == 7 {
        '7'
    } else if d == 8 {
        '8'
    } else if d == 9 {
        '9'
    } else if d == 10 {
        'a'
    } else if d == 11 {
        'b'
    } else if d == 12 {
        'c'
    } else if d == 13 {
        'd'
    } else if d == 14 {
        'e'
    } else {
        'f'
    }
}

/// The decimal numeral of `n`, without leading zeros.
pub open spec fn decimal_digits(n: nat) -> Seq<char>
    decreases n,
{
    if n < 10 {
        seq![digit_char(n as int)]
    } else {
        decimal_digits(n / 10).push(digit_char((n % 10) as int))
    }
}

/// Lower-case hexadecimal: two digits for each byte, the high half first.
pub open spec fn hex_digits(bytes: Seq<u8>) -> Seq<char> {
    Seq::new(
        2 * bytes.len(),
        |i: int|
            if i % 2 == 0 {
                digit_char(bytes[i / 2] as int / 16)
            } else {
                digit_char(bytes[i / 2] as int % 16)
            },
    )
}

/// `c` is one of `0` to `9`.
pub open spec fn is_decimal_digit(c: char) -> bool {
    '0' <= c <= '9'
}

/// The number that the decimal digit `c` stands for.
pub open spec fn digit_value(c: char) -> nat {
    (c as int - '0' as int) as nat
}

/// The number that a string of decimal digits stands for.
pub open spec fn decimal_value(digits: Seq<char>) -> nat
    decreases digits.len(),
{
    if digits.len() == 0 {
        0
    } else {
        decimal_value(digits.drop_last()) * 10 + digit_value(digits.last())
    }
}

/// What is left of `text` when one leading `+` is taken off.
pub open spec fn without_plus_sign(text: Seq<char>) -> Seq<char> {
    if text.len() > 0 && text[0] == '+' {
        text.drop_first()
    } else {
        text
    }
}

/// The 64-bit number that `text` is a decimal numeral of: `text` is one or
/// more decimal digits, with or without a `+` before them, and the number
/// fits in 64 bits. Leading zeros are accepted.
pub open spec fn parsed_decimal(text: Seq<char>) -> Option<u64> {
    let digits = without_plus_sign(text);
    if digits.len() > 0 && (forall|i: int| 0 <= i < digits.len() ==> is_decimal_digit(digits[i]))
        && decimal_value(digits) <= u64::MAX {
        Some(decimal_value(digits) as u64)
    } else {
        None
    }
}

/// The digits of `digits`, each below sixteen, as characters in reverse order.
pub open spec fn reversed_digit_chars(digits: Seq<u8>) -> Seq<char> {
    Seq::new(digits.len(), |i: int| digit_char(digits[digits.len() - 1 - i] as int))
}

/// A numeral grows with each digit that is put behind it.
pub proof fn lemma_decimal_value_prefix(digits: Seq<char>, k: int)
    requires
        0 <= k <= digits.len(),
    ensures
        decimal_value(digits.take(k)) <= decimal_value(digits),
    decreases digits.len() - k,
{
    if k < digits.len() {
        lemma_decimal_value_prefix(digits, k + 1);
        assert(digits.take(k + 1).drop_last() =~= digits.take(k));
        assert(decimal_value(digits.take(k)) <= decimal_value(digits.take(k + 1))) by (nonlinear_arith)
            requires
                decimal_value(digits.take(k + 1)) == decimal_value(digits.take(k)) * 10
                    + digit_value(digits.take(k + 1).last()),
        ;
    } else {
        assert(digits.take(k) =~= digits);
    }
}

/// The digits of the numeral of `n` are decimal digits, and they stand for
/// `n`.
pub proof fn lemma_decimal_digits_value(n: nat)
    ensures
        decimal_digits(n).len() > 0,
        forall|i: int| 0 <= i < decimal_digits(n).len() ==> is_decimal_digit(decimal_digits(n)[i]),
        decimal_digits(n)[0] != '+',
        decimal_value(decimal_digits(n)) == n,
    decreases n,
{
    if n < 10 {
        let s = decimal_digits(n);
        assert(s.drop_last() =~= Seq::<char>::empty());
        assert(decimal_value(s.drop_last()) == 0);
        assert(decimal_value(s) == digit_value(s.last()));
    } else {
        lemma_decimal_digits_value(n / 10);
        let head = decimal_digits(n / 10);
        let s = decimal_digits(n);
        assert(s.drop_last() =~= head);
        assert(s.last() == digit_char((n % 10) as int));
        assert(decimal_value(s) == decimal_value(head) * 10 + digit_value(s.last()));
    }
}

/// Reading back the decimal numeral of a 64-bit number gives the number.
pub proof fn lemma_parse_of_decimal_digits(value: u64)
    ensures
        parsed_decimal(decimal_digits(value as nat)) == Some(value),
{
    lemma_decimal_digits_value(value as nat);
}

/// The one-character string for a digit below sixteen.
fn digit_str(d: u8) -> (s: &'static str)
    requires
        d < 16,
    ensures
        s@ == seq![digit_char(d as int)],
{
    proof {
        reveal_strlit("0");
        reveal_strlit("1");
        reveal_strlit("2");
        reveal_strlit("3");
        reveal_strlit("4");
        reveal_strlit("5");
        reveal_strlit("6");
        reveal_strlit("7");
        reveal_strlit("8");
        reveal_strlit("9");
        reveal_strlit("a");
        reveal_strlit("b");
        reveal_strlit("c");
        reveal_strlit("d");
        reveal_strlit("e");
        reveal_strlit("f");
    }
    let s = if d == 0 {
        "0"
    } else if d == 1 {
        "1"
    } else if d == 2 {
        "2"
    } else if d == 3 {
        "3"
    } else if d == 4 {
        "4"
    } else if d == 5 {
        "5"
    } else if d == 6 {
        "6"
    } else if d == 7 {
        "7"
    } else if d == 8 {
        "8"
    } else if d == 9 {
        "9"
    } else if d == 10 {
        "a"
    } else if d == 11 {
        "b"
    } else if d == 12 {
        "c"
    } else if d == 13 {
        "d"
    } else if d == 14 {
        "e"
    } else {
        "f"
    };
    assert(s@ =~= seq![digit_char(d as int)]);
    s
}

/// Writes a 64-bit number as its decimal numeral.
pub fn decimal_string(value: u64) -> (text: String)
    ensures
        text@ == decimal_digits(value as nat),
{
    let mut digits: Vec<u8> = Vec::new();
    digits.push((value % 10) as u8);
    let mut rest: u64 = value / 10;
    assert(decimal_digits(value as nat) =~= (if rest > 0 {
        decimal_digits(rest as nat)
    } else {
        Seq::<char>::empty()
    }) + reversed_digit_chars(digits@));
    while rest > 0
        invariant
            forall|i: int| 0 <= i < digits@.len() ==> digits@[i] < 10,
            decimal_digits(value as nat) == (if rest > 0 {
                decimal_digits(rest as nat)
            } else {
                Seq::<char>::empty()
            }) + reversed_digit_chars(digits@),
        decreases rest,
    {
        let ghost before = digits@;
        let ghost old_rest = rest;
        digits.push((rest % 10) as u8);
        rest = rest / 10;
        proof {
            let d = (old_rest % 10) as u8;
            assert(reversed_digit_chars(digits@) =~= seq![digit_char(d as int)]
                + reversed_digit_chars(before));
            assert(decimal_digits(old_rest as nat) =~= (if rest > 0 {
                decimal_digits(rest as nat)
            } else {
                Seq::<char>::empty()
            }) + seq![digit_char(d as int)]);
            assert(decimal_digits(value as nat) =~= (if rest > 0 {
                decimal_digits(rest as nat)
            } else {
                Seq::<char>::empty()
            }) + reversed_digit_chars(digits@));
        }
    }
    let n = digits.len();
    let mut text = String::new();
    let mut i: usize = n;
    while i > 0
        invariant
            n == digits@.len(),
            i <= n,
            forall|j: int| 0 <= j < digits@.len() ==> digits@[j] < 10,
            text@ == reversed_digit_chars(digits@).take(n - i),
        decreases i,
    {
        i -= 1;
        text.append(digit_str(digits[i]));
        assert(text@ =~= reversed_digit_chars(digits@).take(n - i));
    }
    assert(reversed_digit_chars(digits@).take(n as int) =~= reversed_digit_chars(digits@));
    assert(decimal_digits(value as nat) =~= reversed_digit_chars(digits@));
    text
}

/// Writes bytes in lower-case hexadecimal, two digits for each byte.
pub fn hex_string(bytes: &[u8]) -> (text: String)
    ensures
        text@ == hex_digits(bytes@),
{
    let mut text = String::new();
    let mut i: usize = 0;
    while i < bytes.len()
        invariant
            i <= bytes.len(),
            text@ == hex_digits(bytes@.take(i as int)),
        decreases bytes.len() - i,
    {
        let b = bytes[i];
        text.append(digit_str(b / 16));
        text.append(digit_str(b % 16));
        i += 1;
        assert(text@ =~= hex_digits(bytes@.take(i as int)));
    }
    assert(bytes@.take(i as int) =~= bytes@);
    text
}

/// The number that a decimal digit stands for, or `None` for any other
/// character.
fn decimal_digit_of(c: char) -> (d: Option<u64>)
    ensures
        d is Some <==> is_decimal_digit(c),
        d is Some ==> d->0 == digit_value(c),
{
    if '0' <= c && c <= '9' {
        Some((c as u32 - '0' as u32) as u64)
    } else {
        None
    }
}

/// Reads a decimal numeral of a 64-bit number. The text is one or more
/// decimal digits, with or without a `+` before them; anything else, and a
/// number that does not fit in 64 bits, gives `None`.
pub fn parse_decimal(text: &str) -> (value: Option<u64>)
    ensures
        value == parsed_decimal(text@),
{
    let ghost s = text@;
    let ghost digits = without_plus_sign(s);
    let ghost mut start: int = 0;
    let ghost mut pos: int = 0;
    let mut chars = text.chars();
    let mut acc: u64 = 0;
    let mut seen: bool = false;
    let mut first: bool = true;
    loop
        invariant
            s == text@,
            digits == without_plus_sign(s),
            0 <= start <= pos <= s.len(),
            chars.obeys_prophetic_iter_laws(),
            chars.remaining() == s.skip(pos),
            first <==> pos == 0,
            start == (if s.len() > 0 && s[0] == '+' && pos > 0 {
                1int
            } else {
                0int
            }),
            seen <==> pos > start,
            forall|i: int| start <= i < pos ==> is_decimal_digit(s[i]),
            acc == decimal_value(s.subrange(start, pos)),
        decreases s.len() - pos,
    {
        match chars.next() {
            None => {
                proof {
                    assert(pos == s.len());
                    assert(s.subrange(start, pos) =~= digits);
                    if start == 1 {
                        assert forall|i: int| 0 <= i < digits.len() implies is_decimal_digit(
                            digits[i],
                        ) by {
                            assert(digits[i] == s[i + 1]);
                        }
                    }
                }
                if seen {
                    return Some(acc);
                } else {
                    return None;
                }
            },
            Some(c) => {
                assert(c == s[pos]);
                assert(s.skip(pos).drop_first() == s.skip(pos + 1));
                if first && c == '+' {
                    first = false;
                    proof {
                        pos = pos + 1;
                        start = 1;
                        assert(s.subrange(start, pos) =~= Seq::<char>::empty());
                    }
                } else {
                    first = false;
                    let d = match decimal_digit_of(c) {
                        Some(d) => d,
                        None => {
                            proof {
                                assert(digits[pos - start] == s[pos]);
                            }
                            return None;
                        },
                    };
                    proof {
                        let longer = s.subrange(start, pos + 1);
                        assert(longer.drop_last() =~= s.subrange(start, pos));
                        assert(longer.last() == c);
                        assert(decimal_value(longer) == acc * 10 + d);
                        assert(longer =~= digits.take(pos + 1 - start));
                        lemma_decimal_value_prefix(digits, pos + 1 - start);
                    }
                    let shifted = match acc.checked_mul(10) {
                        Some(v) => v,
                        None => {
                            return None;
                        },
                    };
                    acc = match shifted.checked_add(d) {
                        Some(v) => v,
                        None => {
                            return None;
                        },
                    };
                    seen = true;
                    proof {
                        pos = pos + 1;
                    }
                }
            },
        }
    }
}

} // verus!
