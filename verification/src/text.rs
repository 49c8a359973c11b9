//! Numbers and labels as text: hexadecimal and decimal digits, and padding to a
//! column width.

use crate::eldecode::{be_bytes, push_be_bytes};
use vstd::prelude::*;
use vstd::string::*;

verus! {

/// The character of a digit, for the values 0 to 15.
pub open spec fn digit(value: int) -> char {
    if value == 0 {
        '0'
    } else if value == 1 {
        '1'
    } else if value == 2 {
        '2'
    } else if value == 3 {
        '3'
    } else if value == 4 {
        '4'
    } else if value == 5 {
        '5'
    } else if value == 6 {
        '6'
    } else if value == 7 {
        '7'
    } else if value == 8 {
        '8'
    } else if value == 9 {
        '9'
    } else if value == 10 {
        'a'
    } else if value == 11 {
        'b'
    } else if value == 12 {
        'c'
    } else if value == 13 {
        'd'
    } else if value == 14 {
        'e'
    } else {
        'f'
    }
}

/// A byte as two hexadecimal digits, in lower case.
pub open spec fn hex_byte(byte: u8) -> Seq<char> {
    seq![digit(byte as int / 16), digit(byte as int % 16)]
}

/// A 32-bit number as eight hexadecimal digits, in lower case.
pub open spec fn hex_word(word: u32) -> Seq<char> {
    hex_byte(be_bytes(word)[0]) + hex_byte(be_bytes(word)[1]) + hex_byte(be_bytes(word)[2])
        + hex_byte(be_bytes(word)[3])
}

/// A byte in decimal, without leading zeros.
pub open spec fn decimal(byte: u8) -> Seq<char> {
    if byte >= 100 {
        seq![digit(byte as int / 100), digit(byte as int / 10 % 10), digit(byte as int % 10)]
    } else if byte >= 10 {
        seq![digit(byte as int / 10), digit(byte as int % 10)]
    } else {
        seq![digit(byte as int)]
    }
}

/// `text` with spaces behind it up to `width` characters. A longer text stays
/// as it is.
pub open spec fn padded(text: Seq<char>, width: nat) -> Seq<char> {
    if text.len() >= width {
        text
    } else {
        text + Seq::new((width - text.len()) as nat, |i: int| ' ')
    }
}

/// The digit of `value` as a string of one character.
fn digit_str(value: u8) -> (text: &'static str)
    requires
        value < 16,
    ensures
        text@ == seq![digit(value as int)],
{
    proof {
        reveal_strlit("0");
        reveal_strlit("1");
        reveal_strlit("2");
        reveal_strlit("3");
        reveal_strlit("4");
        reveal_strlit("5");
        reveal_strlit("6");
        reveal_strlit("7");
        reveal_strlit("8");
        reveal_strlit("9");
        reveal_strlit("a");
        reveal_strlit("b");
        reveal_strlit("c");
        reveal_strlit("d");
        reveal_strlit("e");
        reveal_strlit("f");
    }
    let text = if value == 0 {
        "0"
    } else if value == 1 {
        "1"
    } else if value == 2 {
        "2"
    } else if value == 3 {
        "3"
    } else if value == 4 {
        "4"
    } else if value == 5 {
        "5"
    } else if value == 6 {
        "6"
    } else if value == 7 {
        "7"
    } else if value == 8 {
        "8"
    } else if value == 9 {
        "9"
    } else if value == 10 {
        "a"
    } else if value == 11 {
        "b"
    } else if value == 12 {
        "c"
    } else if value == 13 {
        "d"
    } else if value == 14 {
        "e"
    } else {
        "f"
    };
    assert(text@ =~= seq![digit(value as int)]);
    text
}

/// Appends `byte` as two hexadecimal digits.
pub(crate) fn push_hex_byte(text: &mut String, byte: u8)
    ensures
        final(text)@ == old(text)@ + hex_byte(byte),
{
    text.append(digit_str(byte / 16));
    text.append(digit_str(byte % 16));
    assert(text@ =~= old(text)@ + hex_byte(byte));
}

/// Appends `word` as eight hexadecimal digits.
pub(crate) fn push_hex_word(text: &mut String, word: u32)
    ensures
        final(text)@ == old(text)@ + hex_word(word),
{
    let mut bytes: Vec<u8> = Vec::new();
    push_be_bytes(&mut bytes, word);
    assert(bytes@ =~= be_bytes(word));
    push_hex_byte(text, bytes[0]);
    push_hex_byte(text, bytes[1]);
    push_hex_byte(text, bytes[2]);
    push_hex_byte(text, bytes[3]);
    assert(text@ =~= old(text)@ + hex_word(word));
}

/// Appends `byte` in decimal.
pub(crate) fn push_decimal(text: &mut String, byte: u8)
    ensures
        final(text)@ == old(text)@ + decimal(byte),
{
    if byte >= 100 {
        text.append(digit_str(byte / 100));
    }
    if byte >= 10 {
        text.append(digit_str(byte / 10 % 10));
    }
    text.append(digit_str(byte % 10));
    assert(text@ =~= old(text)@ + decimal(byte));
}

/// Appends `label`, then spaces up to a width of `width` characters.
pub(crate) fn push_padded(text: &mut String, label: &str, width: usize)
    ensures
        final(text)@ == old(text)@ + padded(label@, width as nat),
{
    proof {
        reveal_strlit(" ");
    }
    text.append(label);
    let mut column: usize = label.unicode_len();
    while column < width
        invariant
            label@.len() <= column,
            column <= width || column == label@.len(),
            text@ == old(text)@ + label@ + Seq::new((column - label@.len()) as nat, |i: int| ' '),
            " "@ == seq![' '],
        decreases width - column,
    {
        text.append(" ");
        column += 1;
        assert(text@ =~= old(text)@ + label@ + Seq::new(
            (column - label@.len()) as nat,
            |i: int| ' ',
        ));
    }
    assert(text@ =~= old(text)@ + padded(label@, width as nat));
}

} // verus!
