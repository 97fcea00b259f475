//! Numbers written as text and read back.
use vstd::prelude::*;

verus! {

/// `String::push` appends one character to the end of the string.
pub assume_specification[ String::push ](text: &mut String, c: char)
    ensures
        final(text)@ == old(text)@.push(c),
;

/// The character for a digit below sixteen.
pub open spec fn digit_char(digit: nat) -> char {
    if digit < 10 {
        (('0' as u32) + digit) as char
    } else {
        (('a' as u32) + (digit - 10)) as char
    }
}

/// `n` written in the given base, without leading zeros and with lower case letters.
pub open spec fn numeral(n: nat, base: nat) -> Seq<char>
    recommends
        2 <= base <= 16,
    decreases n,
{
    if n < base || base < 2 {
        seq![digit_char(n)]
    } else {
        proof {
            assert(n / base < n) by (nonlinear_arith)
                requires
                    n >= base,
                    base >= 2,
            ;
        }
        numeral(n / base, base).push(digit_char(n % base))
    }
}

/// `n` in decimal.
pub open spec fn decimal(n: nat) -> Seq<char> {
    numeral(n, 10)
}

/// `n` in hexadecimal.
pub open spec fn hexadecimal(n: nat) -> Seq<char> {
    numeral(n, 16)
}

/// Whether every character is a decimal digit, and there is one.
pub open spec fn is_decimal(text: Seq<char>) -> bool {
    &&& text.len() > 0
    &&& forall|i: int| 0 <= i < text.len() ==> '0' <= #[trigger] text[i] <= '9'
}

/// The number that a row of decimal digits stands for.
pub open spec fn decimal_value(text: Seq<char>) -> nat
    decreases text.len(),
{
    if text.len() == 0 {
        0
    } else {
        decimal_value(text.drop_last()) * 10 + ((text.last() as u32) - ('0' as u32)) as nat
    }
}

/// The digits of a number that may begin with a plus sign.
pub open spec fn without_plus(text: Seq<char>) -> Seq<char> {
    if text.len() > 0 && text[0] == '+' {
        text.drop_first()
    } else {
        text
    }
}

/// The 16-bit number that `text` stands for: an optional plus sign, then decimal digits.
pub open spec fn parsed_u16(text: Seq<char>) -> Option<u16> {
    let digits = without_plus(text);
    if is_decimal(digits) && decimal_value(digits) <= u16::MAX {
        Some(decimal_value(digits) as u16)
    } else {
        None
    }
}

/// The character for a digit below sixteen.
fn digit(value: u8) -> (c: char)
    requires
        value < 16,
    ensures
        c == digit_char(value as nat),
{
    if value < 10 {
        (0x30u8 + value) as char
    } else {
        (0x61u8 + (value - 10)) as char
    }
}

/// `n` written in the given base.
fn numeral_text(n: u128, base: u128) -> (text: String)
    requires
        2 <= base <= 16,
    ensures
        text@ == numeral(n as nat, base as nat),
    decreases n,
{
    if n < base {
        let mut text = String::new();
        text.push(digit(n as u8));
        text
    } else {
        proof {
            assert(n / base < n) by (nonlinear_arith)
                requires
                    n >= base,
                    base >= 2,
            ;
            assert(0 <= n % base < base) by (nonlinear_arith)
                requires
                    base >= 2,
            ;
        }
        let mut text = numeral_text(n / base, base);
        text.push(digit((n % base) as u8));
        text
    }
}

/// `n` in decimal.
pub fn decimal_text(n: u64) -> (text: String)
    ensures
        text@ == decimal(n as nat),
{
    numeral_text(n as u128, 10)
}

/// `n` in hexadecimal, with lower case letters.
pub fn hexadecimal_text(n: u128) -> (text: String)
    ensures
        text@ == hexadecimal(n as nat),
{
    numeral_text(n, 16)
}

proof fn lemma_decimal_value_grows(text: Seq<char>, i: int)
    requires
        0 <= i <= text.len(),
    ensures
        decimal_value(text.take(i)) <= decimal_value(text),
    decreases text.len() - i,
{
    if i < text.len() {
        lemma_decimal_value_grows(text, i + 1);
        assert(text.take(i + 1).drop_last() =~= text.take(i));
    } else {
        assert(text.take(i) =~= text);
    }
}

/// The 16-bit number that the characters stand for, read as decimal digits.
fn parse_digits(digits: &Vec<char>) -> (value: Option<u16>)
    ensures
        value == (if is_decimal(digits@) && decimal_value(digits@) <= u16::MAX {
            Some(decimal_value(digits@) as u16)
        } else {
            None
        }),
{
    if digits.len() == 0 {
        return None;
    }
    let mut total: u32 = 0;
    for i in 0..digits.len()
        invariant
            forall|j: int| 0 <= j < i ==> '0' <= #[trigger] digits@[j] <= '9',
            total == decimal_value(digits@.take(i as int)),
            total <= u16::MAX,
    {
        let c = digits[i];
        if !('0' <= c && c <= '9') {
            return None;
        }
        let ghost seen = digits@.take(i + 1);
        assert(seen.drop_last() =~= digits@.take(i as int));
        assert(seen.last() == c);
        total = total * 10 + ((c as u32) - 48);
        assert(total == decimal_value(seen));
        if total > 65535 {
            proof {
                lemma_decimal_value_grows(digits@, i + 1);
            }
            return None;
        }
    }
    assert(digits@.take(digits@.len() as int) =~= digits@);
    Some(total as u16)
}

/// Reads a 16-bit number: an optional plus sign, then decimal digits.
pub fn parse_u16(text: &str) -> (value: Option<u16>)
    ensures
        value == parsed_u16(text@),
{
    let mut digits = crate::text::chars_of(text);
    if digits.len() > 0 && digits[0] == '+' {
        digits.remove(0);
        assert(digits@ =~= text@.drop_first());
    }
    parse_digits(&digits)
}

proof fn lemma_decimal_reads_back(n: nat)
    ensures
        is_decimal(decimal(n)),
        decimal_value(decimal(n)) == n,
        decimal(n)[0] != '+',
    decreases n,
{
    if n < 10 {
        assert(decimal(n).drop_last() =~= Seq::empty());
        assert(decimal_value(Seq::<char>::empty()) == 0);
    } else {
        lemma_decimal_reads_back(n / 10);
        let front = decimal(n / 10);
        assert(decimal(n) == front.push(digit_char(n % 10)));
        assert(decimal(n).drop_last() =~= front);
        assert forall|i: int| 0 <= i < decimal(n).len() implies '0' <= #[trigger] decimal(n)[i]
            <= '9' by {
            if i < front.len() {
                assert(decimal(n)[i] == front[i]);
            }
        }
        assert(decimal(n)[0] == front[0]);
    }
}

/// Reading a 16-bit number gives back what writing it in decimal wrote.
pub proof fn decimal_is_read_back(n: u16)
    ensures
        parsed_u16(decimal(n as nat)) == Some(n),
{
    lemma_decimal_reads_back(n as nat);
}

/// A number below the base is one digit: `0` to `9`, then `a` to `f`. A larger one is the
/// numeral of its quotient by the base, followed by that of the remainder.
pub proof fn numerals_are_positional(n: nat)
    ensures
        n < 10 ==> decimal(n).len() == 1 && decimal(n)[0] as u32 == 48 + n,
        n >= 10 ==> decimal(n) == decimal(n / 10) + decimal(n % 10),
        n < 10 ==> hexadecimal(n).len() == 1 && hexadecimal(n)[0] as u32 == 48 + n,
        10 <= n < 16 ==> hexadecimal(n).len() == 1 && hexadecimal(n)[0] as u32 == 87 + n,
        n >= 16 ==> hexadecimal(n) == hexadecimal(n / 16) + hexadecimal(n % 16),
{
    if n >= 10 {
        assert(decimal(n) =~= decimal(n / 10) + decimal(n % 10));
    }
    if n >= 16 {
        assert(hexadecimal(n) =~= hexadecimal(n / 16) + hexadecimal(n % 16));
    }
}

/// Reading a number goes by its last character: what does not end in a digit is no number,
/// one digit is its value, also behind a plus sign, and a further digit multiplies what was
/// read so far by ten and is added, as long as the sum fits.
pub proof fn number_is_read_digit_by_digit(text: Seq<char>, last: char)
    ensures
        parsed_u16(Seq::empty()) is None,
        !('0' <= last <= '9') ==> parsed_u16(text.push(last)) is None,
        ('0' <= last <= '9') && (text.len() == 0 || text == seq!['+']) ==> parsed_u16(
            text.push(last),
        ) == Some((last as u32 - 48) as u16),
        ('0' <= last <= '9') && text.len() > 0 && text != seq!['+'] ==> parsed_u16(
            text.push(last),
        ) == (match parsed_u16(text) {
            Some(value) if value * 10 + (last as u32 - 48) <= 65535 => Some(
                (value * 10 + (last as u32 - 48)) as u16,
            ),
            _ => None,
        }),
{
    let more = text.push(last);
    let digits = without_plus(text);
    let all = without_plus(more);
    if !('0' <= last <= '9') {
        assert(all.len() > 0 ==> all[all.len() - 1] == last);
    } else {
        assert(all =~= digits.push(last));
        assert(all.drop_last() =~= digits);
        assert(all[all.len() - 1] == last);
        if text.len() == 0 || text == seq!['+'] {
            assert(digits =~= Seq::empty());
            assert(decimal_value(digits) == 0);
            assert(is_decimal(all));
        } else {
            assert(digits.len() > 0) by {
                if digits.len() == 0 {
                    assert(text =~= seq!['+']);
                }
            }
            if is_decimal(digits) {
                assert forall|i: int| 0 <= i < all.len() implies '0' <= #[trigger] all[i] <= '9' by {
                    if i < digits.len() {
                        assert(all[i] == digits[i]);
                    }
                }
            } else if is_decimal(all) {
                assert forall|i: int| 0 <= i < digits.len() implies '0' <= #[trigger] digits[i]
                    <= '9' by {
                    assert(digits[i] == all[i]);
                }
            }
        }
    }
}

} // verus!
