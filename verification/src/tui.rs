//! The data of the interactive picker: its panels, the entries of its two
//! lists, and the helpers that decide what a list shows.

use vstd::prelude::*;
use vstd::string::StringSliceAdditionalSpecFns;
use vstd::utf8::{decode_utf8, encode_utf8_decode_utf8, is_char_boundary};
use crate::color::{hex_digit, hex_digit_value, hex_pair, is_hex_digit};
use crate::json::{JsonNumber, JsonValue};
use crate::text::chars_of;

verus! {

/// `std::path::PathBuf`, made known as a type so that an entry of the
/// file list can hold one. Nothing of its inside is visible to a proof.
#[verifier::external_type_specification]
#[verifier::external_body]
pub struct ExPathBuf(std::path::PathBuf);

/// The panel that has the focus.
#[derive(Debug, Clone, Copy, PartialEq, Eq, Structural)]
pub enum Panel {
    Files,
    Palette,
}

impl Default for Panel {
    fn default() -> (panel: Panel)
        ensures
            panel == Panel::Files,
    {
        Panel::Files
    }
}

impl Panel {
    /// The panel that the focus moves to. There are two panels, so moving
    /// on twice comes back to where it started.
    pub fn next(self) -> (panel: Panel)
        ensures
            panel == match self {
                Panel::Files => Panel::Palette,
                Panel::Palette => Panel::Files,
            },
    {
        match self {
            Panel::Files => Panel::Palette,
            Panel::Palette => Panel::Files,
        }
    }
}

/// An entry of the file list.
#[derive(Debug, PartialEq, Eq)]
pub struct FileEntry {
    pub name: String,
    pub path: std::path::PathBuf,
    pub is_dir: bool,
    pub is_image: bool,
}

/// An entry of the palette list: a palette, or one of the variations of
/// the palette that is open.
#[derive(Debug, PartialEq, Eq)]
#[allow(inconsistent_fields)]
pub enum PaletteEntry {
    Palette { name: &'static str, idx: usize },
    Variation { name: String, idx: usize },
}

/// A letter of the basic alphabet in lower case; any other character as it
/// is.
pub open spec fn lowered(c: char) -> char {
    if 'A' <= c <= 'Z' {
        ((c as u8) + 32) as char
    } else {
        c
    }
}

/// A text with its basic letters in lower case.
pub open spec fn lowered_text(text: Seq<char>) -> Seq<char> {
    Seq::new(text.len(), |i: int| lowered(text[i]))
}

/// Whether an extension is that of an image that can be read: `png`,
/// `jpg` or `jpeg`, in any mix of upper and lower case.
pub open spec fn is_image_extension_text(extension: Seq<char>) -> bool {
    let low = lowered_text(extension);
    low == "png"@ || low == "jpg"@ || low == "jpeg"@
}

/// Whether an extension is that of an image that can be read.
pub fn is_image_extension(extension: &str) -> (r: bool)
    ensures
        r == is_image_extension_text(extension@),
{
    let text = chars_of(extension);
    let mut low: Vec<char> = Vec::new();
    let mut i: usize = 0;
    while i < text.len()
        invariant
            0 <= i <= text.len(),
            low@ == lowered_text(text@).take(i as int),
        decreases text.len() - i,
    {
        let c = text[i];
        if 'A' <= c && c <= 'Z' {
            low.push(((c as u8) + 32) as char);
        } else {
            low.push(c);
        }
        proof {
            assert(low@ =~= lowered_text(text@).take(i + 1));
        }
        i += 1;
    }
    proof {
        assert(lowered_text(text@).take(text@.len() as int) =~= lowered_text(text@));
        reveal_strlit("png");
        reveal_strlit("jpg");
        reveal_strlit("jpeg");
    }
    let n = low.len();
    if n == 3 {
        let is_png = low[0] == 'p' && low[1] == 'n' && low[2] == 'g';
        let is_jpg = low[0] == 'j' && low[1] == 'p' && low[2] == 'g';
        proof {
            assert(is_png == (low@ =~= "png"@));
            assert(is_jpg == (low@ =~= "jpg"@));
        }
        is_png || is_jpg
    } else if n == 4 {
        let is_jpeg = low[0] == 'j' && low[1] == 'p' && low[2] == 'e' && low[3] == 'g';
        proof {
            assert(is_jpeg == (low@ =~= "jpeg"@));
        }
        is_jpeg
    } else {
        false
    }
}

/// The extension of a path as text: what `Path::extension` gives for the
/// path, where that is valid UTF-8; `None` where the path has no extension
/// or its extension is not valid UTF-8.
pub uninterp spec fn extension_of(path: std::path::PathBuf) -> Option<Seq<char>>;

/// Whether the path has the extension of an image that can be read.
pub open spec fn has_image_extension(path: std::path::PathBuf) -> bool {
    extension_of(path) matches Some(extension) && is_image_extension_text(extension)
}

/// Calls `Path::extension`, which gives the part of the path's file name
/// after its last dot, if the file name has such a part, and hands it out
/// as text by `OsStr::to_str`. The contract only gives the result its
/// name: the extension is read off the path and nothing else.
#[verifier::external_body]
fn extension(path: &std::path::PathBuf) -> (r: Option<&str>)
    ensures
        match r {
            Some(text) => extension_of(*path) == Some(text@),
            None => extension_of(*path) is None,
        },
{
    path.extension()?.to_str()
}

/// Whether the path names an image that can be read, judged by its
/// extension: `false` for a path without an extension, and for any other
/// path what `is_image_extension` says of its extension.
pub fn is_image_file(path: &std::path::PathBuf) -> (r: bool)
    ensures
        r == has_image_extension(*path),
{
    match extension(path) {
        Some(ext) => is_image_extension(ext),
        None => false,
    }
}

/// A text cut to `max` bytes for a narrow column: a text of at most `max`
/// bytes as it is, a longer one as its first `max - 1` bytes and an
/// ellipsis. The cut has to fall between two characters.
pub fn truncate(s: &str, max: usize) -> (out: String)
    requires
        s.len() > max ==> max >= 1 && is_char_boundary(s.spec_bytes(), max - 1),
    ensures
        out@ == if s.len() <= max {
            s@
        } else {
            decode_utf8(s.spec_bytes().subrange(0, max - 1)).push('\u{2026}')
        },
{
    if s.len() <= max {
        s.to_owned()
    } else {
        let (head, _) = s.split_at(max - 1);
        proof {
            encode_utf8_decode_utf8(head@);
        }
        let mut out = head.to_owned();
        out.push('\u{2026}');
        out
    }
}

/// The number that two characters write in base 16, as the preview reads
/// it: two hexadecimal digits, or a plus sign and one hexadecimal digit.
pub open spec fn preview_pair(high: char, low: char) -> Option<u8> {
    if is_hex_digit(high) && is_hex_digit(low) {
        Some(hex_pair(high, low))
    } else if high == '+' && is_hex_digit(low) {
        Some(hex_digit_value(low) as u8)
    } else {
        None
    }
}

/// The colour that the preview shows for a value of a palette document:
/// that of a `#` and six characters, two for each channel, or that of an
/// array of three whole numbers, each taken modulo 256. Any other value
/// has no preview.
pub open spec fn preview_color(value: JsonValue) -> Option<[u8; 3]> {
    match value {
        JsonValue::String(hex) => {
            let text = hex@;
            if text.len() == 7 && text[0] == '#' {
                match (
                    preview_pair(text[1], text[2]),
                    preview_pair(text[3], text[4]),
                    preview_pair(text[5], text[6]),
                ) {
                    (Some(r), Some(g), Some(b)) => Some([r, g, b]),
                    _ => None,
                }
            } else {
                None
            }
        },
        JsonValue::Array(items) => {
            if items.len() == 3 {
                match (items[0], items[1], items[2]) {
                    (
                        JsonValue::Number(JsonNumber::Unsigned(r)),
                        JsonValue::Number(JsonNumber::Unsigned(g)),
                        JsonValue::Number(JsonNumber::Unsigned(b)),
                    ) => Some([(r % 256) as u8, (g % 256) as u8, (b % 256) as u8]),
                    _ => None,
                }
            } else {
                None
            }
        },
        _ => None,
    }
}

/// Reads two characters as a number in base 16.
fn parse_preview_pair(high: char, low: char) -> (r: Option<u8>)
    ensures
        r == preview_pair(high, low),
{
    match hex_digit(low) {
        None => None,
        Some(l) => match hex_digit(high) {
            Some(h) => Some(h * 16 + l),
            None => if high == '+' {
                Some(l)
            } else {
                None
            },
        },
    }
}

/// Reads a whole number as a channel, modulo 256.
fn parse_preview_channel(value: &JsonValue) -> (r: Option<u8>)
    ensures
        r == match *value {
            JsonValue::Number(JsonNumber::Unsigned(v)) => Some((v % 256) as u8),
            _ => None,
        },
{
    match value {
        JsonValue::Number(JsonNumber::Unsigned(v)) => Some((*v % 256) as u8),
        _ => None,
    }
}

/// The colour that the preview shows for a value of a palette document,
/// if it shows one.
pub fn parse_color_value(val: &JsonValue) -> (r: Option<[u8; 3]>)
    ensures
        r == preview_color(*val),
{
    match val {
        JsonValue::String(hex) => {
            let text = chars_of(hex.as_str());
            if text.len() == 7 && text[0] == '#' {
                let r = parse_preview_pair(text[1], text[2]);
                let g = parse_preview_pair(text[3], text[4]);
                let b = parse_preview_pair(text[5], text[6]);
                match (r, g, b) {
                    (Some(r), Some(g), Some(b)) => Some([r, g, b]),
                    _ => None,
                }
            } else {
                None
            }
        },
        JsonValue::Array(items) => {
            if items.len() == 3 {
                let r = parse_preview_channel(&items[0]);
                let g = parse_preview_channel(&items[1]);
                let b = parse_preview_channel(&items[2]);
                match (r, g, b) {
                    (Some(r), Some(g), Some(b)) => Some([r, g, b]),
                    _ => None,
                }
            } else {
                None
            }
        },
        _ => None,
    }
}

} // verus!
