//! What a run is asked to do: which styles of a palette to use, which
//! palette, and how many images to read and write.

use vstd::prelude::*;
use crate::json::{clone_entries, same_entries, Entry, JsonValue};
use crate::text::{chars_of, same_text, string_of};

verus! {

/// Which styles of a palette document a run uses.
#[derive(Debug, PartialEq, Eq)]
pub enum ColorPaletteStyles {
    /// Every style of the document, one palette each.
    All,
    /// The named styles only, in the order given.
    Selected { styles: Vec<String> },
    /// The document has no styles: it is one flat palette.
    Flat,
}

impl Clone for ColorPaletteStyles {
    fn clone(&self) -> (out: ColorPaletteStyles)
        ensures
            match (*self, out) {
                (ColorPaletteStyles::All, ColorPaletteStyles::All) => true,
                (ColorPaletteStyles::Flat, ColorPaletteStyles::Flat) => true,
                (
                    ColorPaletteStyles::Selected { styles: from },
                    ColorPaletteStyles::Selected { styles: to },
                ) => to@ == from@,
                _ => false,
            },
    {
        match self {
            ColorPaletteStyles::All => ColorPaletteStyles::All,
            ColorPaletteStyles::Flat => ColorPaletteStyles::Flat,
            ColorPaletteStyles::Selected { styles } => {
                let mut names: Vec<String> = Vec::with_capacity(styles.len());
                let mut i: usize = 0;
                while i < styles.len()
                    invariant
                        0 <= i <= styles.len(),
                        names@ == styles@.take(i as int),
                    decreases styles.len() - i,
                {
                    names.push(styles[i].clone());
                    proof {
                        assert(names@ =~= styles@.take(i + 1));
                    }
                    i += 1;
                }
                proof {
                    assert(styles@.take(i as int) =~= styles@);
                }
                ColorPaletteStyles::Selected { styles: names }
            },
        }
    }
}

/// Why a text is no selection of styles.
#[derive(Clone, Copy, Debug, PartialEq, Eq, Structural)]
pub enum StyleSelectionError {
    /// The text is empty: no style is selected.
    Empty,
    /// One of the comma-separated names is empty: the text starts or ends
    /// with a comma, or holds two commas in a row.
    EmptyEntry,
}

/// Whether the text selects every style.
pub open spec fn selects_all(text: Seq<char>) -> bool {
    text == "all"@ || text == "ALL"@
}

/// Whether the text says that the palette has no styles.
pub open spec fn selects_flat(text: Seq<char>) -> bool {
    text == "none"@ || text == "NONE"@ || text == "no"@ || text == "NO"@
}

/// Whether splitting the text at its commas gives an empty piece.
pub open spec fn has_empty_entry(text: Seq<char>) -> bool {
    ||| text.len() == 0
    ||| text[0] == ','
    ||| text.last() == ','
    ||| exists|i: int| 0 <= i < text.len() - 1 && #[trigger] text[i] == ',' && text[i + 1] == ','
}

/// The pieces put together again, with a comma between each two.
pub open spec fn joined(pieces: Seq<String>) -> Seq<char>
    decreases pieces.len(),
{
    if pieces.len() == 0 {
        Seq::empty()
    } else if pieces.len() == 1 {
        pieces[0]@
    } else {
        joined(pieces.drop_last()).push(',') + pieces.last()@
    }
}

/// Whether a text holds no comma.
pub open spec fn has_no_comma(text: Seq<char>) -> bool {
    forall|j: int| 0 <= j < text.len() ==> text[j] != ','
}

/// Whether `styles` are the pieces of the text between its commas: put
/// together again they give the text, and none of them holds a comma.
pub open spec fn is_split_of(text: Seq<char>, styles: Seq<String>) -> bool {
    &&& styles.len() >= 1
    &&& joined(styles) == text
    &&& forall|k: int| 0 <= k < styles.len() ==> has_no_comma((#[trigger] styles[k])@)
}

impl ColorPaletteStyles {
    /// Reads a selection of styles: `all`, `none` (or `no`), or a list of
    /// names separated by commas.
    pub fn from_str(s: &str) -> (r: Result<ColorPaletteStyles, StyleSelectionError>)
        ensures
            match r {
                Ok(ColorPaletteStyles::All) => selects_all(s@),
                Ok(ColorPaletteStyles::Flat) => !selects_all(s@) && selects_flat(s@),
                Ok(ColorPaletteStyles::Selected { styles }) => {
                    &&& !selects_all(s@)
                    &&& !selects_flat(s@)
                    &&& !has_empty_entry(s@)
                    &&& is_split_of(s@, styles@)
                },
                Err(StyleSelectionError::Empty) => s@.len() == 0,
                Err(StyleSelectionError::EmptyEntry) => {
                    &&& s@.len() > 0
                    &&& !selects_all(s@)
                    &&& !selects_flat(s@)
                    &&& has_empty_entry(s@)
                },
            },
    {
        if same_text(s, "all") || same_text(s, "ALL") {
            return Ok(ColorPaletteStyles::All);
        }
        if same_text(s, "none") || same_text(s, "NONE") || same_text(s, "no") || same_text(
            s,
            "NO",
        ) {
            return Ok(ColorPaletteStyles::Flat);
        }
        let text = chars_of(s);
        if text.len() == 0 {
            return Err(StyleSelectionError::Empty);
        }
        let mut styles: Vec<String> = Vec::new();
        let mut start: usize = 0;
        let mut i: usize = 0;
        while i < text.len()
            invariant
                0 <= start <= i <= text.len(),
                text@ == s@,
                text.len() > 0,
                !selects_all(s@),
                !selects_flat(s@),
                start == 0 ==> styles.len() == 0,
                start > 0 ==> styles.len() >= 1 && joined(styles@).push(',') == text@.take(
                    start as int,
                ),
                forall|k: int| 0 <= k < styles.len() ==> has_no_comma((#[trigger] styles[k])@),
                forall|j: int| start <= j < i ==> text@[j] != ',',
                forall|j: int|
                    0 <= j < i && #[trigger] text@[j] == ',' ==> j >= 1 && text@[j - 1] != ','
                        && j < start,
            decreases text.len() - i,
        {
            if text[i] == ',' {
                if i == start {
                    proof {
                        if start > 0 {
                            assert(text@.take(start as int).last() == ',');
                            assert(text@[start - 1] == ',' && text@[(start - 1) + 1] == ',');
                        }
                    }
                    return Err(StyleSelectionError::EmptyEntry);
                }
                let piece = string_of(&text, start, i);
                proof {
                    lemma_joined_push(styles@, piece, text@, start as int, i as int);
                }
                styles.push(piece);
                start = i + 1;
            }
            i += 1;
        }
        if i == start {
            proof {
                assert(text@.take(start as int).last() == ',');
            }
            return Err(StyleSelectionError::EmptyEntry);
        }
        let piece = string_of(&text, start, i);
        proof {
            lemma_joined_last(styles@, piece, text@, start as int);
            if has_empty_entry(text@) {
                if text@[0] == ',' {
                    assert(0 < start);
                } else if text@.last() == ',' {
                    assert(text@[text.len() - 1] == ',');
                } else {
                    let w = choose|w: int|
                        0 <= w < text@.len() - 1 && #[trigger] text@[w] == ',' && text@[w + 1]
                            == ',';
                    assert(text@[w + 1] == ',');
                }
            }
        }
        styles.push(piece);
        Ok(ColorPaletteStyles::Selected { styles })
    }
}

/// The pieces found so far and one more give the text up to and with the
/// comma that ends the new piece.
proof fn lemma_joined_push(
    styles: Seq<String>,
    piece: String,
    text: Seq<char>,
    start: int,
    end: int,
)
    requires
        0 <= start <= end < text.len(),
        text[end] == ',',
        piece@ == text.subrange(start, end),
        start == 0 ==> styles.len() == 0,
        start > 0 ==> styles.len() >= 1 && joined(styles).push(',') == text.take(start),
    ensures
        joined(styles.push(piece)).push(',') == text.take(end + 1),
{
    let grown = styles.push(piece);
    assert(grown.drop_last() =~= styles);
    if styles.len() == 0 {
        assert(joined(grown) == piece@);
        assert(piece@.push(',') =~= text.take(end + 1));
    } else {
        assert(joined(grown) == joined(styles).push(',') + piece@);
        assert((text.take(start) + text.subrange(start, end)).push(',') =~= text.take(end + 1));
    }
}

/// The pieces found so far and the last one give the whole text.
proof fn lemma_joined_last(styles: Seq<String>, piece: String, text: Seq<char>, start: int)
    requires
        0 <= start <= text.len(),
        piece@ == text.subrange(start, text.len() as int),
        start == 0 ==> styles.len() == 0,
        start > 0 ==> styles.len() >= 1 && joined(styles).push(',') == text.take(start),
    ensures
        joined(styles.push(piece)) == text,
{
    let grown = styles.push(piece);
    assert(grown.drop_last() =~= styles);
    if styles.len() == 0 {
        assert(text.subrange(0, text.len() as int) =~= text);
    } else {
        assert(text.take(start) + text.subrange(start, text.len() as int) =~= text);
    }
}

/// Where a split has more than one piece, the text is the pieces but the
/// last, a comma, and the last piece; that comma is the last of the text.
proof fn lemma_split_tail(text: Seq<char>, pieces: Seq<String>)
    requires
        is_split_of(text, pieces),
    ensures
        has_no_comma(pieces.last()@),
        pieces.len() == 1 ==> text == pieces[0]@,
        pieces.len() > 1 ==> ({
            let front = joined(pieces.drop_last());
            &&& is_split_of(front, pieces.drop_last())
            &&& text.len() == front.len() + 1 + pieces.last()@.len()
            &&& text[front.len() as int] == ','
            &&& text.take(front.len() as int) == front
            &&& text.skip(front.len() as int + 1) == pieces.last()@
        }),
{
    assert(has_no_comma(pieces[pieces.len() - 1]@));
    if pieces.len() > 1 {
        let front = joined(pieces.drop_last());
        let shorter = pieces.drop_last();
        assert forall|k: int| 0 <= k < shorter.len() implies has_no_comma(
            (#[trigger] shorter[k])@,
        ) by {
            assert(has_no_comma(pieces[k]@));
        }
        assert(text == front.push(',') + pieces.last()@);
        assert(text.take(front.len() as int) =~= front);
        assert(text.skip(front.len() as int + 1) =~= pieces.last()@);
    }
}

/// A text splits at its commas in one way only: two lists of pieces that
/// both are a split of the text hold the same pieces.
pub proof fn lemma_split_is_unique(text: Seq<char>, one: Seq<String>, other: Seq<String>)
    requires
        is_split_of(text, one),
        is_split_of(text, other),
    ensures
        one.len() == other.len(),
        forall|k: int| 0 <= k < one.len() ==> (#[trigger] one[k])@ == other[k]@,
    decreases one.len(),
{
    lemma_split_tail(text, one);
    lemma_split_tail(text, other);
    let a = one.last()@;
    let b = other.last()@;
    if one.len() == 1 {
        if other.len() > 1 {
            let f = joined(other.drop_last()).len() as int;
            assert(a[f] == ',');
        }
    } else {
        let f = joined(one.drop_last()).len() as int;
        if other.len() == 1 {
            assert(b[f] == ',');
        } else {
            let g = joined(other.drop_last()).len() as int;
            if f < g {
                assert(a[g - f - 1] == text.skip(f + 1)[g - f - 1]);
                assert(text.skip(f + 1)[g - f - 1] == text[g]);
            } else if g < f {
                assert(b[f - g - 1] == text.skip(g + 1)[f - g - 1]);
                assert(text.skip(g + 1)[f - g - 1] == text[f]);
            }
            assert(f == g);
            lemma_split_is_unique(joined(one.drop_last()), one.drop_last(), other.drop_last());
            assert forall|k: int| 0 <= k < one.len() implies (#[trigger] one[k])@ == other[k]@ by {
                if k < one.len() - 1 {
                    assert(one.drop_last()[k]@ == other.drop_last()[k]@);
                }
            }
        }
    }
}

/// The palette that a run uses: one of the built-in themes, or a palette
/// document that the caller supplies.
#[derive(Debug, PartialEq, Eq)]
pub enum ColorPalette {
    /// A caller-supplied document: the entries of its top-level object.
    RawJSON { map: Vec<Entry> },
    Catppuccin,
    Dracula,
    Edge,
    Everforest,
    Gruvbox,
    GruvboxMaterial,
    Nord,
    OneDark,
    RosePine,
    Solarized,
    TokyoNight,
}

impl Clone for ColorPalette {
    fn clone(&self) -> (out: ColorPalette)
        ensures
            match (*self, out) {
                (ColorPalette::RawJSON { map: from }, ColorPalette::RawJSON { map: to }) => {
                    same_entries(from@, to@)
                },
                (ColorPalette::RawJSON { .. }, _) => false,
                (_, ColorPalette::RawJSON { .. }) => false,
                _ => out == *self,
            },
    {
        match self {
            ColorPalette::RawJSON { map } => ColorPalette::RawJSON { map: clone_entries(map) },
            ColorPalette::Catppuccin => ColorPalette::Catppuccin,
            ColorPalette::Dracula => ColorPalette::Dracula,
            ColorPalette::Edge => ColorPalette::Edge,
            ColorPalette::Everforest => ColorPalette::Everforest,
            ColorPalette::Gruvbox => ColorPalette::Gruvbox,
            ColorPalette::GruvboxMaterial => ColorPalette::GruvboxMaterial,
            ColorPalette::Nord => ColorPalette::Nord,
            ColorPalette::OneDark => ColorPalette::OneDark,
            ColorPalette::RosePine => ColorPalette::RosePine,
            ColorPalette::Solarized => ColorPalette::Solarized,
            ColorPalette::TokyoNight => ColorPalette::TokyoNight,
        }
    }
}

impl ColorPalette {
    /// The identifier of the palette: the canonical name of a built-in
    /// theme, `custom` for a caller-supplied document.
    pub open spec fn identifier(self) -> Seq<char> {
        match self {
            ColorPalette::RawJSON { .. } => "custom"@,
            ColorPalette::Catppuccin => "catppuccin"@,
            ColorPalette::Dracula => "dracula"@,
            ColorPalette::Edge => "edge"@,
            ColorPalette::Everforest => "everforest"@,
            ColorPalette::Gruvbox => "gruvbox"@,
            ColorPalette::GruvboxMaterial => "gruvbox-material"@,
            ColorPalette::Nord => "nord"@,
            ColorPalette::OneDark => "onedark"@,
            ColorPalette::RosePine => "rose-pine"@,
            ColorPalette::Solarized => "solarized"@,
            ColorPalette::TokyoNight => "tokyo-night"@,
        }
    }

    /// The built-in theme that a name stands for. Besides its canonical
    /// name a theme of more than one word is known with `_` in place of
    /// `-`, and with the words run together.
    pub open spec fn named(name: Seq<char>) -> Option<ColorPalette> {
        if name == "catppuccin"@ {
            Some(ColorPalette::Catppuccin)
        } else if name == "dracula"@ {
            Some(ColorPalette::Dracula)
        } else if name == "edge"@ {
            Some(ColorPalette::Edge)
        } else if name == "everforest"@ {
            Some(ColorPalette::Everforest)
        } else if name == "gruvbox"@ {
            Some(ColorPalette::Gruvbox)
        } else if name == "gruvbox-material"@ || name == "gruvbox_material"@ || name
            == "gruvboxmaterial"@ {
            Some(ColorPalette::GruvboxMaterial)
        } else if name == "nord"@ {
            Some(ColorPalette::Nord)
        } else if name == "onedark"@ || name == "one_dark"@ || name == "one-dark"@ {
            Some(ColorPalette::OneDark)
        } else if name == "rose-pine"@ || name == "rose_pine"@ || name == "rosepine"@ {
            Some(ColorPalette::RosePine)
        } else if name == "solarized"@ {
            Some(ColorPalette::Solarized)
        } else if name == "tokyo-night"@ || name == "tokyo_night"@ || name == "tokyonight"@ {
            Some(ColorPalette::TokyoNight)
        } else {
            None
        }
    }

    /// The identifier of the palette, as it stands in the names of output
    /// files.
    pub fn identifier_str(&self) -> (name: &'static str)
        ensures
            name@ == self.identifier(),
    {
        match self {
            ColorPalette::RawJSON { .. } => "custom",
            ColorPalette::Catppuccin => "catppuccin",
            ColorPalette::Dracula => "dracula",
            ColorPalette::Edge => "edge",
            ColorPalette::Everforest => "everforest",
            ColorPalette::Gruvbox => "gruvbox",
            ColorPalette::GruvboxMaterial => "gruvbox-material",
            ColorPalette::Nord => "nord",
            ColorPalette::OneDark => "onedark",
            ColorPalette::RosePine => "rose-pine",
            ColorPalette::Solarized => "solarized",
            ColorPalette::TokyoNight => "tokyo-night",
        }
    }

    /// The built-in theme that a name stands for, if it is the name of one.
    pub fn from_name(name: &str) -> (r: Option<ColorPalette>)
        ensures
            r == ColorPalette::named(name@),
    {
        if same_text(name, "catppuccin") {
            Some(ColorPalette::Catppuccin)
        } else if same_text(name, "dracula") {
            Some(ColorPalette::Dracula)
        } else if same_text(name, "edge") {
            Some(ColorPalette::Edge)
        } else if same_text(name, "everforest") {
            Some(ColorPalette::Everforest)
        } else if same_text(name, "gruvbox") {
            Some(ColorPalette::Gruvbox)
        } else if same_text(name, "gruvbox-material") || same_text(name, "gruvbox_material")
            || same_text(name, "gruvboxmaterial") {
            Some(ColorPalette::GruvboxMaterial)
        } else if same_text(name, "nord") {
            Some(ColorPalette::Nord)
        } else if same_text(name, "onedark") || same_text(name, "one_dark") || same_text(
            name,
            "one-dark",
        ) {
            Some(ColorPalette::OneDark)
        } else if same_text(name, "rose-pine") || same_text(name, "rose_pine") || same_text(
            name,
            "rosepine",
        ) {
            Some(ColorPalette::RosePine)
        } else if same_text(name, "solarized") {
            Some(ColorPalette::Solarized)
        } else if same_text(name, "tokyo-night") || same_text(name, "tokyo_night") || same_text(
            name,
            "tokyonight",
        ) {
            Some(ColorPalette::TokyoNight)
        } else {
            None
        }
    }

    /// The palette of a caller-supplied document, which has to be an
    /// object. Any other value is handed back.
    pub fn from_document(document: JsonValue) -> (r: Result<ColorPalette, JsonValue>)
        ensures
            match r {
                Ok(palette) => document == JsonValue::Object(palette->map),
                Err(value) => !(document is Object) && value == document,
            },
    {
        match document {
            JsonValue::Object(map) => Ok(ColorPalette::RawJSON { map }),
            other => Err(other),
        }
    }
}

/// What the palette argument of the command line names.
#[derive(Debug, PartialEq, Eq)]
pub enum PaletteArgument {
    /// A palette document written in the argument itself, after `JSON:`.
    Inline { json: String },
    /// A built-in theme.
    Builtin { palette: ColorPalette },
    /// Anything else: the path of a file that holds a palette document.
    External { path: String },
}

/// Whether the argument starts with the mark of an inline document, which
/// is `JSON:` and a space.
pub open spec fn is_inline(text: Seq<char>) -> bool {
    text.len() >= 6 && text.take(6) == "JSON: "@
}

/// Tells what the palette argument names. The text of an inline document
/// is what follows the colon, its leading space included.
pub fn classify_palette(s: &str) -> (r: PaletteArgument)
    ensures
        match r {
            PaletteArgument::Inline { json } => is_inline(s@) && json@ == s@.skip(5),
            PaletteArgument::Builtin { palette } => !is_inline(s@) && ColorPalette::named(s@)
                == Some(palette),
            PaletteArgument::External { path } => !is_inline(s@) && ColorPalette::named(s@) is None
                && path@ == s@,
        },
{
    let text = chars_of(s);
    let mark = chars_of("JSON: ");
    proof {
        reveal_strlit("JSON: ");
    }
    if text.len() >= 6 && text[0] == mark[0] && text[1] == mark[1] && text[2] == mark[2] && text[3]
        == mark[3] && text[4] == mark[4] && text[5] == mark[5] {
        assert(text@.take(6) =~= "JSON: "@);
        let json = string_of(&text, 5, text.len());
        return PaletteArgument::Inline { json };
    }
    assert(!is_inline(s@)) by {
        if is_inline(s@) {
            let prefix = s@.take(6);
            assert(prefix[0] == mark@[0] && prefix[1] == mark@[1] && prefix[2] == mark@[2]
                && prefix[3] == mark@[3] && prefix[4] == mark@[4] && prefix[5] == mark@[5]);
        }
    }
    match ColorPalette::from_name(s) {
        Some(palette) => PaletteArgument::Builtin { palette },
        None => PaletteArgument::External { path: s.to_owned() },
    }
}

/// Whether a path stands for the standard input or output, which is
/// written `-`.
pub fn is_stdio(path: &str) -> (r: bool)
    ensures
        r == (path@ == "-"@),
{
    same_text(path, "-")
}

/// Why the images that a run is to read and write are refused.
#[derive(Clone, Copy, Debug, PartialEq, Eq, Structural)]
pub enum CardinalityError {
    /// There is no image to process.
    NoInput,
    /// Output names were given, but not one for each image.
    Mismatch { inputs: usize, outputs: usize },
}

/// Checks, before any image is touched, that there is an image to process
/// and that the output names, if any were given, are as many as the
/// images.
pub fn check_cardinality(inputs: usize, outputs: Option<usize>) -> (r: Result<(), CardinalityError>)
    ensures
        r == if inputs == 0 {
            Err::<(), CardinalityError>(CardinalityError::NoInput)
        } else if outputs matches Some(n) && n != inputs {
            Err(CardinalityError::Mismatch { inputs, outputs: outputs->0 })
        } else {
            Ok(())
        },
{
    if inputs == 0 {
        return Err(CardinalityError::NoInput);
    }
    match outputs {
        Some(n) => if n != inputs {
            Err(CardinalityError::Mismatch { inputs, outputs: n })
        } else {
            Ok(())
        },
        None => Ok(()),
    }
}

/// Whether the run writes its one image to the standard output: exactly
/// one output name was given and it is `-`.
pub fn writes_to_stdout(outputs: &Option<Vec<String>>) -> (r: bool)
    ensures
        r == (outputs matches Some(names) && names.len() == 1 && names[0]@ == "-"@),
{
    match outputs {
        Some(names) => names.len() == 1 && is_stdio(names[0].as_str()),
        None => false,
    }
}

} // verus!
