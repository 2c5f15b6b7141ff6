//! Decimal numbers as text.

use vstd::prelude::*;

verus! {

/// Whether `c` is one of the digits `0` to `9`.
pub open spec fn is_digit(c: char) -> bool {
    '0' <= c <= '9'
}

/// The value of the digit `c`.
pub open spec fn digit_value(c: char) -> nat {
    (c as u32 - '0' as u32) as nat
}

/// Whether `text` is made of digits only.
pub open spec fn all_digits(text: Seq<char>) -> bool {
    forall|i: int| 0 <= i < text.len() ==> is_digit(#[trigger] text[i])
}

/// The number that the digits of `text` spell in base ten.
pub open spec fn decimal_value(text: Seq<char>) -> nat
    decreases text.len(),
{
    if text.len() == 0 {
        0
    } else {
        decimal_value(text.drop_last()) * 10 + digit_value(text.last())
    }
}

/// The number that `text` spells, if `text` is a non-empty run of digits
/// whose value fits in 32 bits.
pub open spec fn decimal_u32(text: Seq<char>) -> Option<u32> {
    if text.len() > 0 && all_digits(text) && decimal_value(text) <= u32::MAX {
        Some(decimal_value(text) as u32)
    } else {
        None
    }
}

/// A run of digits spells at least what any of its prefixes spells.
pub proof fn lemma_decimal_value_grows(text: Seq<char>, k: int)
    requires
        all_digits(text),
        0 <= k <= text.len(),
    ensures
        decimal_value(text.take(k)) <= decimal_value(text),
    decreases text.len() - k,
{
    if k == text.len() {
        assert(text.take(k) =~= text);
    } else {
        lemma_decimal_value_grows(text, k + 1);
        let longer = text.take(k + 1);
        assert(longer.drop_last() =~= text.take(k));
        assert(is_digit(text[k]));
    }
}

/// Reads `text` as a decimal number of 32 bits.
///
/// The text must be a non-empty run of the digits `0` to `9`; a sign, a
/// blank, any other character, or a value above `u32::MAX` gives `None`.
pub fn parse_decimal(text: &str) -> (number: Option<u32>)
    ensures
        number == decimal_u32(text@),
{
    if !text.is_ascii() {
        proof {
            let i = choose|i: int|
                0 <= i < text@.len() && !('\0' <= #[trigger] text@[i] <= '\u{7f}');
            assert(!is_digit(text@[i]));
        }
        return None;
    }
    let bytes = text.as_bytes();
    proof {
        vstd::string::is_ascii_spec_bytes(text);
    }
    let n = bytes.len();
    if n == 0 {
        return None;
    }
    let mut value: u32 = 0;
    let mut i: usize = 0;
    while i < n
        invariant
            i <= n,
            n == text@.len(),
            bytes@ == Seq::new(text@.len(), |k: int| text@[k] as u8),
            vstd::string::is_ascii(text),
            all_digits(text@.take(i as int)),
            value == decimal_value(text@.take(i as int)),
        decreases n - i,
    {
        let b = bytes[i];
        let ghost c = text@[i as int];
        assert(b == c as u8);
        assert('\0' <= c <= '\u{7f}');
        if b < 48 || b > 57 {
            assert(!is_digit(c));
            return None;
        }
        let d: u32 = (b - 48) as u32;
        proof {
            let longer = text@.take(i + 1);
            assert(longer.drop_last() =~= text@.take(i as int));
            assert(longer.last() == c);
            assert(is_digit(c));
            assert(digit_value(c) == d);
            assert forall|k: int| 0 <= k < longer.len() implies is_digit(
                #[trigger] longer[k],
            ) by {
                if k < i {
                    assert(longer[k] == text@.take(i as int)[k]);
                }
            }
            assert(decimal_value(longer) == value * 10 + d);
        }
        if value > (u32::MAX - d) / 10 {
            proof {
                if all_digits(text@) {
                    lemma_decimal_value_grows(text@, i + 1);
                }
            }
            return None;
        }
        value = value * 10 + d;
        i = i + 1;
    }
    assert(text@.take(i as int) =~= text@);
    Some(value)
}

/// The digit that stands for `d`, for `d` below ten.
pub open spec fn digit_char(d: nat) -> char {
    if d == 0 {
        '0'
    } else if d == 1 {
        '1'
    } else if d == 2 {
        '2'
    } else if d == 3 {
        '3'
    } else if d == 4 {
        '4'
    } else if d == 5 {
        '5'
    } else if d == 6 {
        '6'
    } else if d == 7 {
        '7'
    } else if d == 8 {
        '8'
    } else {
        '9'
    }
}

/// The digits of `n` in base ten, without leading zeros.
pub open spec fn decimal_digits(n: nat) -> Seq<char>
    decreases n,
{
    if n < 10 {
        seq![digit_char(n)]
    } else {
        decimal_digits(n / 10).push(digit_char(n % 10))
    }
}

/// The texts of `parts`, with a comma and a blank between one and the next.
pub open spec fn joined(parts: Seq<Seq<char>>) -> Seq<char>
    decreases parts.len(),
{
    if parts.len() == 0 {
        seq![]
    } else if parts.len() == 1 {
        parts[0]
    } else {
        joined(parts.drop_last()) + ", "@ + parts.last()
    }
}

/// The decimal digits of each of `numbers`.
pub open spec fn number_texts(numbers: Seq<u32>) -> Seq<Seq<char>> {
    numbers.map_values(|n: u32| decimal_digits(n as nat))
}

/// The digits of a number are digits, and spell that number: a number of 32
/// bits that is written out is read back as itself.
pub proof fn lemma_decimal_digits_spell(n: nat)
    ensures
        decimal_digits(n).len() > 0,
        all_digits(decimal_digits(n)),
        decimal_value(decimal_digits(n)) == n,
        n <= u32::MAX ==> decimal_u32(decimal_digits(n)) == Some(n as u32),
    decreases n,
{
    if n < 10 {
        let text = decimal_digits(n);
        assert(text.drop_last() =~= Seq::<char>::empty());
        assert(decimal_value(text.drop_last()) == 0);
        assert(digit_value(digit_char(n)) == n);
    } else {
        lemma_decimal_digits_spell(n / 10);
        let text = decimal_digits(n);
        assert(text.drop_last() =~= decimal_digits(n / 10));
        assert(text.last() == digit_char(n % 10));
        assert(digit_value(digit_char(n % 10)) == n % 10);
        assert forall|i: int| 0 <= i < text.len() implies is_digit(#[trigger] text[i]) by {
            if i < text.len() - 1 {
                assert(text[i] == decimal_digits(n / 10)[i]);
            }
        }
    }
}

fn digit_str(d: u64) -> (text: &'static str)
    requires
        d < 10,
    ensures
        text@ == seq![digit_char(d as nat)],
{
    proof {
        reveal_strlit("0");
        reveal_strlit("1");
        reveal_strlit("2");
        reveal_strlit("3");
        reveal_strlit("4");
        reveal_strlit("5");
        reveal_strlit("6");
        reveal_strlit("7");
        reveal_strlit("8");
        reveal_strlit("9");
    }
    let text = if d == 0 {
        "0"
    } else if d == 1 {
        "1"
    } else if d == 2 {
        "2"
    } else if d == 3 {
        "3"
    } else if d == 4 {
        "4"
    } else if d == 5 {
        "5"
    } else if d == 6 {
        "6"
    } else if d == 7 {
        "7"
    } else if d == 8 {
        "8"
    } else {
        "9"
    };
    assert(text@ =~= seq![digit_char(d as nat)]);
    text
}

/// Appends the decimal digits of `n` to `out`.
pub fn push_decimal(out: &mut String, n: u64)
    ensures
        final(out)@ == old(out)@ + decimal_digits(n as nat),
    decreases n,
{
    if n >= 10 {
        push_decimal(out, n / 10);
    }
    out.append(digit_str(n % 10));
    assert(out@ =~= old(out)@ + decimal_digits(n as nat));
}

/// Appends the decimal digits of each of `numbers` to `out`, with a comma
/// and a blank between one number and the next.
pub fn push_numbers(out: &mut String, numbers: &[u32])
    ensures
        final(out)@ == old(out)@ + joined(number_texts(numbers@)),
{
    let mut i: usize = 0;
    while i < numbers.len()
        invariant
            i <= numbers.len(),
            out@ == old(out)@ + joined(number_texts(numbers@.take(i as int))),
        decreases numbers.len() - i,
    {
        let ghost before = out@;
        if i > 0 {
            out.append(", ");
        }
        push_decimal(out, numbers[i] as u64);
        proof {
            let done = number_texts(numbers@.take(i as int));
            let next = number_texts(numbers@.take(i + 1));
            assert(next.drop_last() =~= done);
            assert(next.last() == decimal_digits(numbers@[i as int] as nat));
            assert(out@ =~= old(out)@ + joined(next));
        }
        i = i + 1;
    }
    assert(numbers@.take(i as int) =~= numbers@);
}

/// Tells whether `text` holds a colon.
pub fn has_colon(text: &str) -> (found: bool)
    ensures
        found == text@.contains(':'),
{
    let n = text.unicode_len();
    let mut i: usize = 0;
    while i < n
        invariant
            i <= n,
            n == text@.len(),
            forall|k: int| 0 <= k < i ==> text@[k] != ':',
        decreases n - i,
    {
        if text.get_char(i) == ':' {
            return true;
        }
        i = i + 1;
    }
    false
}

} // verus!
