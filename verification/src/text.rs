//! Text as characters and as UTF-8 bytes: comparing two texts, reading a
//! decimal number, and the facts about character boundaries that cutting a
//! text into pieces relies on.

use vstd::prelude::*;
use vstd::string::*;
use vstd::utf8::*;

verus! {

/// True when every byte is below 0x80, so that each byte is one character.
pub open spec fn all_ascii(bytes: Seq<u8>) -> bool {
    forall|i: int| 0 <= i < bytes.len() ==> #[trigger] bytes[i] < 0x80
}

/// The bytes of a text are valid UTF-8.
pub proof fn lemma_text_is_utf8(text: &str)
    ensures
        valid_utf8(text.spec_bytes()),
{
    encode_utf8_valid_utf8(text@);
}

/// A text whose encoding holds only bytes below 0x80 has one character per
/// byte, each with the byte's value.
pub proof fn lemma_ascii_bytes_give_ascii_chars(chars: Seq<char>)
    requires
        all_ascii(encode_utf8(chars)),
    ensures
        is_ascii_chars(chars),
        encode_utf8(chars).len() == chars.len(),
        forall|i: int| 0 <= i < chars.len() ==> #[trigger] encode_utf8(chars)[i] == chars[i] as u8,
    decreases chars.len(),
{
    if chars.len() > 0 {
        let c0 = chars[0] as u32;
        let head = encode_scalar(c0);
        let tail = encode_utf8(chars.drop_first());
        assert((head + tail)[0] == head[0]);
        assert(forall|y: u8| #![auto] (0xC0u8 | y) >= 0x80 && (0xE0u8 | y) >= 0x80 && (0xF0u8 | y) >= 0x80)
            by (bit_vector);
        assert forall|i: int| 0 <= i < tail.len() implies #[trigger] tail[i] < 0x80 by {
            assert((head + tail)[i + 1] == tail[i]);
        }
        lemma_ascii_bytes_give_ascii_chars(chars.drop_first());
        assert forall|i: int| 0 <= i < chars.len() implies '\0' <= #[trigger] chars[i] <= '\u{7f}' by {
            if i > 0 {
                assert(chars[i] == chars.drop_first()[i - 1]);
            } else {
                char_u32_cast(chars[0], c0);
            }
        }
        is_ascii_chars_encode_utf8(chars);
    }
}

/// In valid UTF-8 a byte below 0x80 is a whole character: there is a
/// character boundary before it and after it.
pub proof fn lemma_boundary_around_ascii(bytes: Seq<u8>, i: int)
    requires
        valid_utf8(bytes),
        0 <= i < bytes.len(),
        bytes[i] < 0x80,
    ensures
        is_char_boundary(bytes, i),
        is_char_boundary(bytes, i + 1),
{
    is_char_boundary_iff_not_is_continuation_byte(bytes, i);
    if i + 1 == bytes.len() {
        is_char_boundary_start_end_of_seq(bytes);
    } else {
        let rest = bytes.subrange(i, bytes.len() as int);
        valid_utf8_split(bytes, i);
        assert(valid_first_scalar(rest) && valid_utf8(pop_first_scalar(rest)));
        is_char_boundary_iff_not_is_continuation_byte(bytes, i + 1);
    }
}

/// A character boundary of a text is also one of each prefix of the text
/// that ends at a later boundary.
pub proof fn lemma_boundary_in_prefix(bytes: Seq<u8>, start: int, end: int)
    requires
        valid_utf8(bytes),
        0 <= start <= end <= bytes.len(),
        is_char_boundary(bytes, start),
        is_char_boundary(bytes, end),
    ensures
        valid_utf8(bytes.subrange(0, end)),
        is_char_boundary(bytes.subrange(0, end), start),
{
    let prefix = bytes.subrange(0, end);
    valid_utf8_split(bytes, end);
    if start < end {
        is_char_boundary_iff_not_is_continuation_byte(bytes, start);
        is_char_boundary_iff_not_is_continuation_byte(prefix, start);
    } else {
        is_char_boundary_start_end_of_seq(prefix);
    }
}

/// Two texts with the same bytes are the same text.
pub proof fn lemma_same_bytes_same_text(a: Seq<char>, b: Seq<char>)
    requires
        encode_utf8(a) == encode_utf8(b),
    ensures
        a == b,
{
    encode_utf8_decode_utf8(a);
    encode_utf8_decode_utf8(b);
}

/// Whether two texts are equal, decided byte by byte.
pub fn str_eq(a: &str, b: &str) -> (same: bool)
    ensures
        same == (a@ == b@),
{
    let x = a.as_bytes();
    let y = b.as_bytes();
    if x.len() != y.len() {
        return false;
    }
    let mut i: usize = 0;
    while i < x.len()
        invariant
            i <= x.len(),
            x.len() == y.len(),
            x@ == a.spec_bytes(),
            y@ == b.spec_bytes(),
            forall|j: int| 0 <= j < i ==> x@[j] == y@[j],
        decreases x.len() - i,
    {
        if x[i] != y[i] {
            return false;
        }
        i += 1;
    }
    proof {
        assert(x@ =~= y@);
        lemma_same_bytes_same_text(a@, b@);
    }
    true
}

/// True for the ten decimal digits.
pub open spec fn is_digit(c: char) -> bool {
    '0' <= c && c <= '9'
}

/// The number that a digit stands for.
pub open spec fn digit_value(c: char) -> nat {
    (c as int - '0' as int) as nat
}

/// True for a non-empty text made of decimal digits only.
pub open spec fn is_number(text: Seq<char>) -> bool {
    &&& text.len() > 0
    &&& forall|i: int| 0 <= i < text.len() ==> is_digit(#[trigger] text[i])
}

/// The value of a run of decimal digits, most significant digit first.
pub open spec fn number_value(text: Seq<char>) -> nat
    decreases text.len(),
{
    if text.len() == 0 {
        0
    } else {
        10 * number_value(text.drop_last()) + digit_value(text.last())
    }
}

/// The number that `text` spells, if it is a run of decimal digits whose
/// value is at most `max`.
pub open spec fn read_number(text: Seq<char>, max: nat) -> Option<nat> {
    if is_number(text) && number_value(text) <= max {
        Some(number_value(text))
    } else {
        None
    }
}

/// The value of a run of digits is at least the value of each of its
/// prefixes.
pub proof fn lemma_number_value_grows(text: Seq<char>, k: int)
    requires
        0 <= k <= text.len(),
    ensures
        number_value(text.take(k)) <= number_value(text),
    decreases text.len() - k,
{
    if k == text.len() {
        assert(text.take(k) =~= text);
    } else {
        lemma_number_value_grows(text, k + 1);
        assert(text.take(k + 1).drop_last() =~= text.take(k));
    }
}

/// Reads a decimal number of at most `max` from `text`.
pub fn parse_number(text: &str, max: u32) -> (value: Option<u32>)
    ensures
        match value {
            Some(v) => read_number(text@, max as nat) == Some(v as nat),
            None => read_number(text@, max as nat) is None,
        },
{
    let bytes = text.as_bytes();
    let n = bytes.len();
    let ghost chars = text@;
    proof {
        if is_number(chars) {
            is_ascii_chars_encode_utf8(chars);
        }
    }
    if n == 0 {
        return None;
    }
    let mut value: u64 = 0;
    let mut i: usize = 0;
    while i < n
        invariant
            i <= n,
            n == bytes@.len(),
            n > 0,
            chars == text@,
            bytes@ == encode_utf8(chars),
            value <= max,
            forall|j: int| 0 <= j < i ==> 48 <= #[trigger] bytes@[j] <= 57,
            is_number(chars) ==> chars.len() == n && value == number_value(chars.take(i as int)),
            is_number(chars) ==> forall|j: int|
                0 <= j < n ==> #[trigger] bytes@[j] == chars[j] as u8,
        decreases n - i,
    {
        let b = bytes[i];
        if b < 48 || b > 57 {
            return None;
        }
        let next: u64 = value * 10 + (b - 48) as u64;
        proof {
            if is_number(chars) {
                let upto = chars.take(i + 1);
                assert(upto.drop_last() =~= chars.take(i as int));
                lemma_number_value_grows(chars, i + 1);
            }
        }
        if next > max as u64 {
            return None;
        }
        value = next;
        i += 1;
    }
    proof {
        lemma_ascii_bytes_give_ascii_chars(chars);
        assert forall|j: int| 0 <= j < chars.len() implies is_digit(#[trigger] chars[j]) by {
            assert(48 <= bytes@[j] <= 57);
        }
        assert(chars.take(n as int) =~= chars);
    }
    Some(value as u32)
}

/// The newline.
pub const NEWLINE: u8 = 0x0a;

/// The number of newline bytes from `from` up to `to`.
pub open spec fn newlines_between(bytes: Seq<u8>, from: int, to: int) -> nat
    decreases to - from,
{
    if to <= from {
        0
    } else {
        newlines_between(bytes, from, to - 1) + if bytes[to - 1] == NEWLINE {
            1nat
        } else {
            0nat
        }
    }
}

/// The line counter after it has met `newlines` more newlines. It stops at
/// the largest value that it can hold.
pub open spec fn line_after(line: usize, newlines: nat) -> usize {
    if line + newlines <= usize::MAX {
        (line + newlines) as usize
    } else {
        usize::MAX
    }
}

/// Newlines counted over two adjoining ranges add up.
pub proof fn lemma_newlines_add(bytes: Seq<u8>, from: int, mid: int, to: int)
    requires
        from <= mid <= to,
    ensures
        newlines_between(bytes, from, to) == newlines_between(bytes, from, mid) + newlines_between(
            bytes,
            mid,
            to,
        ),
    decreases to - mid,
{
    if mid < to {
        lemma_newlines_add(bytes, from, mid, to - 1);
    }
}

/// The text that the bytes from `start` up to `end` spell.
pub open spec fn text_between(bytes: Seq<u8>, start: int, end: int) -> Seq<char> {
    decode_utf8(bytes.subrange(start, end))
}

/// `text` between double quotes.
pub open spec fn quoted(text: Seq<char>) -> Seq<char> {
    "\""@ + text + "\""@
}

/// The digit for a value below sixteen.
pub open spec fn digit_char(value: nat) -> char {
    if value == 0 {
        '0'
    } else if value == 1 {
        '1'
    } else if value == 2 {
        '2'
    } else if value == 3 {
        '3'
    } else if value == 4 {
        '4'
    } else if value == 5 {
        '5'
    } else if value == 6 {
        '6'
    } else if value == 7 {
        '7'
    } else if value == 8 {
        '8'
    } else if value == 9 {
        '9'
    } else if value == 10 {
        'a'
    } else if value == 11 {
        'b'
    } else if value == 12 {
        'c'
    } else if value == 13 {
        'd'
    } else if value == 14 {
        'e'
    } else {
        'f'
    }
}

/// Dividing by two or more makes a number smaller.
pub proof fn lemma_quotient_is_smaller(value: nat, base: nat)
    by (nonlinear_arith)
    requires
        2 <= base <= value,
    ensures
        value / base < value,
{
}

/// The digits of `value` in the given base, most significant first, with no
/// leading zero; zero is the one digit `0`.
pub open spec fn digits(value: nat, base: nat) -> Seq<char>
    decreases value,
{
    if base < 2 || value < base {
        seq![digit_char(value)]
    } else {
        proof {
            lemma_quotient_is_smaller(value, base);
        }
        digits(value / base, base).push(digit_char(value % base))
    }
}

/// The one-character text of a digit.
fn digit_str(value: usize) -> (text: &'static str)
    requires
        value < 16,
    ensures
        text@ == seq![digit_char(value as nat)],
{
    proof {
        reveal_strlit("0");
        reveal_strlit("1");
        reveal_strlit("2");
        reveal_strlit("3");
        reveal_strlit("4");
        reveal_strlit("5");
        reveal_strlit("6");
        reveal_strlit("7");
        reveal_strlit("8");
        reveal_strlit("9");
        reveal_strlit("a");
        reveal_strlit("b");
        reveal_strlit("c");
        reveal_strlit("d");
        reveal_strlit("e");
        reveal_strlit("f");
    }
    let text = if value == 0 {
        "0"
    } else if value == 1 {
        "1"
    } else if value == 2 {
        "2"
    } else if value == 3 {
        "3"
    } else if value == 4 {
        "4"
    } else if value == 5 {
        "5"
    } else if value == 6 {
        "6"
    } else if value == 7 {
        "7"
    } else if value == 8 {
        "8"
    } else if value == 9 {
        "9"
    } else if value == 10 {
        "a"
    } else if value == 11 {
        "b"
    } else if value == 12 {
        "c"
    } else if value == 13 {
        "d"
    } else if value == 14 {
        "e"
    } else {
        "f"
    };
    text
}

/// The digits of `value` in a base from two to sixteen.
pub fn digits_of(value: usize, base: usize) -> (text: String)
    requires
        2 <= base <= 16,
    ensures
        text@ == digits(value as nat, base as nat),
    decreases value,
{
    if value < base {
        String::from_str(digit_str(value))
    } else {
        proof {
            lemma_quotient_is_smaller(value as nat, base as nat);
        }
        let mut text = digits_of(value / base, base);
        text.append(digit_str(value % base));
        text
    }
}

} // verus!
