//! Colours as three 8-bit channels, and the three forms in which a palette
//! document writes one: a `#RRGGBB` or `#RGB` string, an array of three
//! numbers, or an object with the keys `r`, `g` and `b`.

use vstd::prelude::*;
use crate::json::{
    find_key, is_first_with_key, lemma_position_of_key_is, position_of_key, same_entries, same_json,
    Entry, JsonNumber, JsonValue,
};
use crate::text::chars_of;

verus! {

/// An sRGB colour.
#[derive(Clone, Copy, Debug, PartialEq, Eq, Structural)]
pub struct Rgb {
    pub r: u8,
    pub g: u8,
    pub b: u8,
}

/// One of the three channels of a colour.
#[derive(Clone, Copy, Debug, PartialEq, Eq, Structural)]
pub enum Channel {
    Red,
    Green,
    Blue,
}

/// Why a value of a palette document is not a colour.
#[derive(Clone, Copy, Debug, PartialEq, Eq, Structural)]
pub enum ColorError {
    /// A string that does not start with `#`.
    HexPrefix,
    /// A string with other than three or six characters after the `#`.
    HexLength,
    /// A string with a character after the `#` that is no hexadecimal digit.
    HexDigit,
    /// An array with other than three elements.
    ArrayLength { found: usize },
    /// An array whose element at `index` is not a number.
    ArrayNotNumber { index: usize },
    /// An array whose element at `index` is a number that does not fit in
    /// eight bits.
    ArrayRange { index: usize },
    /// An object without the key of a channel.
    MissingChannel { channel: Channel },
    /// An object whose value for a channel is not a number.
    ChannelNotNumber { channel: Channel },
    /// An object whose value for a channel is a number that does not fit
    /// in eight bits.
    ChannelRange { channel: Channel },
}

impl Channel {
    /// The key under which an object holds the channel.
    pub open spec fn key(self) -> Seq<char> {
        match self {
            Channel::Red => "r"@,
            Channel::Green => "g"@,
            Channel::Blue => "b"@,
        }
    }

    /// The key under which an object holds the channel.
    pub fn key_str(&self) -> (key: &'static str)
        ensures
            key@ == self.key(),
    {
        match self {
            Channel::Red => "r",
            Channel::Green => "g",
            Channel::Blue => "b",
        }
    }
}

/// Whether a character is a hexadecimal digit, in either case.
pub open spec fn is_hex_digit(c: char) -> bool {
    ('0' <= c <= '9') || ('a' <= c <= 'f') || ('A' <= c <= 'F')
}

/// The value of a hexadecimal digit.
pub open spec fn hex_digit_value(c: char) -> int
    recommends
        is_hex_digit(c),
{
    if '0' <= c <= '9' {
        c as int - '0' as int
    } else if 'a' <= c <= 'f' {
        c as int - 'a' as int + 10
    } else {
        c as int - 'A' as int + 10
    }
}

/// The channel that two hexadecimal digits write.
pub open spec fn hex_pair(high: char, low: char) -> u8 {
    (16 * hex_digit_value(high) + hex_digit_value(low)) as u8
}

/// The colour that a string writes: `#` and then either six digits, two
/// for each channel, or three digits, each of which stands for itself
/// doubled.
pub open spec fn hex_color(text: Seq<char>) -> Result<Rgb, ColorError> {
    if text.len() == 0 || text[0] != '#' {
        Err(ColorError::HexPrefix)
    } else if text.len() != 4 && text.len() != 7 {
        Err(ColorError::HexLength)
    } else if exists|i: int| 1 <= i < text.len() && !is_hex_digit(#[trigger] text[i]) {
        Err(ColorError::HexDigit)
    } else if text.len() == 4 {
        Ok(
            Rgb {
                r: hex_pair(text[1], text[1]),
                g: hex_pair(text[2], text[2]),
                b: hex_pair(text[3], text[3]),
            },
        )
    } else {
        Ok(
            Rgb {
                r: hex_pair(text[1], text[2]),
                g: hex_pair(text[3], text[4]),
                b: hex_pair(text[5], text[6]),
            },
        )
    }
}

/// The value of a hexadecimal digit; `None` for any other character.
pub fn hex_digit(c: char) -> (r: Option<u8>)
    ensures
        r is Some <==> is_hex_digit(c),
        r matches Some(v) ==> v == hex_digit_value(c) && v < 16,
{
    if '0' <= c && c <= '9' {
        Some((c as u32 - '0' as u32) as u8)
    } else if 'a' <= c && c <= 'f' {
        Some((c as u32 - 'a' as u32 + 10) as u8)
    } else if 'A' <= c && c <= 'F' {
        Some((c as u32 - 'A' as u32 + 10) as u8)
    } else {
        None
    }
}

/// Reads a colour from a `#RRGGBB` or `#RGB` string.
pub fn parse_hex_color(hex: &str) -> (r: Result<Rgb, ColorError>)
    ensures
        r == hex_color(hex@),
{
    let text = chars_of(hex);
    if text.len() == 0 || text[0] != '#' {
        return Err(ColorError::HexPrefix);
    }
    if text.len() != 4 && text.len() != 7 {
        return Err(ColorError::HexLength);
    }
    let mut values: Vec<u8> = Vec::new();
    let mut i: usize = 1;
    while i < text.len()
        invariant
            1 <= i <= text.len(),
            text@ == hex@,
            text@[0] == '#',
            text.len() == 4 || text.len() == 7,
            values.len() == i - 1,
            forall|j: int| 1 <= j < i ==> is_hex_digit(#[trigger] text@[j]),
            forall|j: int| 1 <= j < i ==> values@[j - 1] == hex_digit_value(#[trigger] text@[j]),
            forall|j: int| 0 <= j < values.len() ==> #[trigger] values@[j] < 16,
        decreases text.len() - i,
    {
        match hex_digit(text[i]) {
            Some(v) => values.push(v),
            None => {
                assert(!is_hex_digit(text@[i as int]));
                return Err(ColorError::HexDigit);
            },
        }
        i += 1;
    }
    if values.len() == 3 {
        Ok(Rgb { r: values[0] * 17, g: values[1] * 17, b: values[2] * 17 })
    } else {
        Ok(
            Rgb {
                r: values[0] * 16 + values[1],
                g: values[2] * 16 + values[3],
                b: values[4] * 16 + values[5],
            },
        )
    }
}

/// The channel that a number writes, if it is a whole number from 0 to 255.
pub open spec fn number_channel(number: JsonNumber) -> Option<u8> {
    match number {
        JsonNumber::Unsigned(v) => if v <= 255 {
            Some(v as u8)
        } else {
            None
        },
        JsonNumber::Other(_) => None,
    }
}

/// The channel that the element at `index` of an array writes.
pub open spec fn array_channel(items: Seq<JsonValue>, index: int) -> Result<u8, ColorError> {
    match items[index] {
        JsonValue::Number(number) => match number_channel(number) {
            Some(v) => Ok(v),
            None => Err(ColorError::ArrayRange { index: index as usize }),
        },
        _ => Err(ColorError::ArrayNotNumber { index: index as usize }),
    }
}

/// The colour that an array writes: three numbers, red first. The first
/// element that is no channel decides the error.
pub open spec fn array_color(items: Seq<JsonValue>) -> Result<Rgb, ColorError> {
    if items.len() != 3 {
        Err(ColorError::ArrayLength { found: items.len() as usize })
    } else {
        match array_channel(items, 0) {
            Err(e) => Err(e),
            Ok(r) => match array_channel(items, 1) {
                Err(e) => Err(e),
                Ok(g) => match array_channel(items, 2) {
                    Err(e) => Err(e),
                    Ok(b) => Ok(Rgb { r, g, b }),
                },
            },
        }
    }
}

/// The channel that an object writes under the channel's key; the first
/// entry with that key counts.
pub open spec fn object_channel(entries: Seq<Entry>, channel: Channel) -> Result<u8, ColorError> {
    match position_of_key(entries, channel.key()) {
        None => Err(ColorError::MissingChannel { channel }),
        Some(i) => match entries[i].1 {
            JsonValue::Number(number) => match number_channel(number) {
                Some(v) => Ok(v),
                None => Err(ColorError::ChannelRange { channel }),
            },
            _ => Err(ColorError::ChannelNotNumber { channel }),
        },
    }
}

/// The colour that an object writes under the keys `r`, `g` and `b`. The
/// first of the three that is no channel decides the error; other keys
/// play no part.
pub open spec fn object_color(entries: Seq<Entry>) -> Result<Rgb, ColorError> {
    match object_channel(entries, Channel::Red) {
        Err(e) => Err(e),
        Ok(r) => match object_channel(entries, Channel::Green) {
            Err(e) => Err(e),
            Ok(g) => match object_channel(entries, Channel::Blue) {
                Err(e) => Err(e),
                Ok(b) => Ok(Rgb { r, g, b }),
            },
        },
    }
}

/// The colour that a value of a palette document writes. A value that is
/// neither a string nor an array nor an object is taken as black.
pub open spec fn color_of(value: JsonValue) -> Result<Rgb, ColorError> {
    match value {
        JsonValue::String(hex) => hex_color(hex@),
        JsonValue::Array(items) => array_color(items@),
        JsonValue::Object(entries) => object_color(entries@),
        _ => Ok(Rgb { r: 0, g: 0, b: 0 }),
    }
}

/// Reads a channel from a number.
pub fn parse_number_channel(number: &JsonNumber) -> (r: Option<u8>)
    ensures
        r == number_channel(*number),
{
    match number {
        JsonNumber::Unsigned(v) => if *v <= 255 {
            Some(*v as u8)
        } else {
            None
        },
        JsonNumber::Other(_) => None,
    }
}

/// Reads the channel at `index` of an array.
fn parse_array_channel(items: &Vec<JsonValue>, index: usize) -> (r: Result<u8, ColorError>)
    requires
        index < items.len(),
    ensures
        r == array_channel(items@, index as int),
{
    match &items[index] {
        JsonValue::Number(number) => match parse_number_channel(number) {
            Some(v) => Ok(v),
            None => Err(ColorError::ArrayRange { index }),
        },
        _ => Err(ColorError::ArrayNotNumber { index }),
    }
}

/// Reads a colour from an array of three numbers.
pub fn parse_array_color(items: &Vec<JsonValue>) -> (r: Result<Rgb, ColorError>)
    ensures
        r == array_color(items@),
{
    if items.len() != 3 {
        return Err(ColorError::ArrayLength { found: items.len() });
    }
    let r = match parse_array_channel(items, 0) {
        Ok(v) => v,
        Err(e) => {
            return Err(e);
        },
    };
    let g = match parse_array_channel(items, 1) {
        Ok(v) => v,
        Err(e) => {
            return Err(e);
        },
    };
    let b = match parse_array_channel(items, 2) {
        Ok(v) => v,
        Err(e) => {
            return Err(e);
        },
    };
    Ok(Rgb { r, g, b })
}

/// Reads one channel from an object.
fn parse_object_channel(entries: &Vec<Entry>, channel: Channel) -> (r: Result<u8, ColorError>)
    ensures
        r == object_channel(entries@, channel),
{
    match find_key(entries, channel.key_str()) {
        None => Err(ColorError::MissingChannel { channel }),
        Some(i) => match &entries[i].1 {
            JsonValue::Number(number) => match parse_number_channel(number) {
                Some(v) => Ok(v),
                None => Err(ColorError::ChannelRange { channel }),
            },
            _ => Err(ColorError::ChannelNotNumber { channel }),
        },
    }
}

/// Reads a colour from an object with the keys `r`, `g` and `b`.
pub fn parse_object_color(entries: &Vec<Entry>) -> (r: Result<Rgb, ColorError>)
    ensures
        r == object_color(entries@),
{
    let r = match parse_object_channel(entries, Channel::Red) {
        Ok(v) => v,
        Err(e) => {
            return Err(e);
        },
    };
    let g = match parse_object_channel(entries, Channel::Green) {
        Ok(v) => v,
        Err(e) => {
            return Err(e);
        },
    };
    let b = match parse_object_channel(entries, Channel::Blue) {
        Ok(v) => v,
        Err(e) => {
            return Err(e);
        },
    };
    Ok(Rgb { r, g, b })
}

/// Reads a colour from a value of a palette document, in any of its three
/// forms.
pub fn parse_color(value: &JsonValue) -> (r: Result<Rgb, ColorError>)
    ensures
        r == color_of(*value),
{
    match value {
        JsonValue::String(hex) => parse_hex_color(hex.as_str()),
        JsonValue::Array(items) => parse_array_color(items),
        JsonValue::Object(entries) => parse_object_color(entries),
        _ => Ok(Rgb { r: 0, g: 0, b: 0 }),
    }
}

/// Two lists of entries that hold the same keys in the same order find a
/// key at the same position.
pub proof fn lemma_same_entries_same_position(
    a: Seq<Entry>,
    b: Seq<Entry>,
    key: Seq<char>,
)
    requires
        same_entries(a, b),
    ensures
        position_of_key(a, key) == position_of_key(b, key),
{
    assert forall|i: int| is_first_with_key(a, key, i) == is_first_with_key(b, key, i) by {
        if is_first_with_key(a, key, i) {
            assert(a[i].0@ == b[i].0@);
            assert forall|j: int| 0 <= j < i implies (#[trigger] b[j]).0@ != key by {
                assert(a[j].0@ == b[j].0@);
            }
        }
        if is_first_with_key(b, key, i) {
            assert(a[i].0@ == b[i].0@);
            assert forall|j: int| 0 <= j < i implies (#[trigger] a[j]).0@ != key by {
                assert(a[j].0@ == b[j].0@);
            }
        }
    }
    if exists|i: int| is_first_with_key(a, key, i) {
        let i = choose|i: int| is_first_with_key(a, key, i);
        assert(is_first_with_key(b, key, i));
        lemma_position_of_key_is(a, key, i);
        lemma_position_of_key_is(b, key, i);
    } else {
        if exists|i: int| is_first_with_key(b, key, i) {
            let i = choose|i: int| is_first_with_key(b, key, i);
            assert(is_first_with_key(a, key, i));
        }
    }
}

/// What a value writes as a colour depends on the tree that the value is,
/// and on nothing else: two values that are the same tree are the same
/// colour, or are refused for the same reason.
pub proof fn lemma_same_json_same_color(a: JsonValue, b: JsonValue)
    requires
        same_json(a, b),
    ensures
        color_of(a) == color_of(b),
{
    match (a, b) {
        (JsonValue::Array(x), JsonValue::Array(y)) => {
            if x.len() == 3 {
                assert(same_json(x[0], y[0]));
                assert(same_json(x[1], y[1]));
                assert(same_json(x[2], y[2]));
                assert(array_channel(x@, 0) == array_channel(y@, 0));
                assert(array_channel(x@, 1) == array_channel(y@, 1));
                assert(array_channel(x@, 2) == array_channel(y@, 2));
            }
        },
        (JsonValue::Object(x), JsonValue::Object(y)) => {
            lemma_same_object_channel(x@, y@, Channel::Red);
            lemma_same_object_channel(x@, y@, Channel::Green);
            lemma_same_object_channel(x@, y@, Channel::Blue);
        },
        _ => {},
    }
}

/// Two lists of entries that are the same write the same channel.
proof fn lemma_same_object_channel(
    a: Seq<Entry>,
    b: Seq<Entry>,
    channel: Channel,
)
    requires
        same_entries(a, b),
    ensures
        object_channel(a, channel) == object_channel(b, channel),
{
    lemma_same_entries_same_position(a, b, channel.key());
    match position_of_key(a, channel.key()) {
        Some(i) => {
            assert(is_first_with_key(a, channel.key(), i));
            assert(same_json(a[i].1, b[i].1));
        },
        None => {},
    }
}

} // verus!
