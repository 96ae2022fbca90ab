//! Palettes: reading them from a palette document under a selection of
//! styles, and naming the files that converted images are written to.

use vstd::prelude::*;
use vstd::std_specs::iter::IteratorSpec;
use vstd::string::StringExecFns;
use crate::cli::{ColorPalette, ColorPaletteStyles};
use crate::color::{color_of, parse_color, ColorError, Rgb};
use crate::delta::CLIDEMethod;
use crate::json::{find_key, position_of_key, Entry, JsonValue};

verus! {

/// A palette: an optional name and the named colours it holds, in order.
#[derive(Debug, PartialEq, Eq)]
pub struct Palette {
    pub name: Option<String>,
    pub colors: Vec<(String, Rgb)>,
}

/// A named colour as a mathematical value: the characters of its name, and
/// the colour.
pub type NamedColor = (Seq<char>, Rgb);

/// A palette as a mathematical value.
pub struct PaletteView {
    pub name: Option<Seq<char>>,
    pub colors: Seq<NamedColor>,
}

/// The named colours of a palette, each name as its characters.
pub open spec fn colors_view(colors: Seq<(String, Rgb)>) -> Seq<NamedColor> {
    Seq::new(colors.len(), |i: int| (colors[i].0@, colors[i].1))
}

impl View for Palette {
    type V = PaletteView;

    open spec fn view(&self) -> PaletteView {
        PaletteView {
            name: match self.name {
                Some(name) => Some(name@),
                None => None,
            },
            colors: colors_view(self.colors@),
        }
    }
}

impl Clone for Palette {
    fn clone(&self) -> (out: Palette)
        ensures
            out@ == self@,
    {
        let name = match &self.name {
            Some(name) => Some(name.clone()),
            None => None,
        };
        let mut colors: Vec<(String, Rgb)> = Vec::with_capacity(self.colors.len());
        let mut i: usize = 0;
        while i < self.colors.len()
            invariant
                0 <= i <= self.colors.len(),
                colors@ == self.colors@.take(i as int),
            decreases self.colors.len() - i,
        {
            colors.push((self.colors[i].0.clone(), self.colors[i].1));
            proof {
                assert(colors@ =~= self.colors@.take(i + 1));
            }
            i += 1;
        }
        proof {
            assert(self.colors@.take(i as int) =~= self.colors@);
        }
        Palette { name, colors }
    }
}

/// An entry of a palette document that is no colour.
#[derive(Debug, PartialEq, Eq)]
pub struct PaletteError {
    /// The name of the entry.
    pub color: String,
    /// The value of the entry, as the document holds it.
    pub value: JsonValue,
    /// What is wrong with the value.
    pub reason: ColorError,
}

/// Whether `i` is the position of the first entry that is no colour.
pub open spec fn is_first_malformed(entries: Seq<Entry>, i: int) -> bool {
    &&& 0 <= i < entries.len()
    &&& color_of(entries[i].1) is Err
    &&& forall|j: int| 0 <= j < i ==> color_of((#[trigger] entries[j]).1) is Ok
}

/// The position of the first entry that is no colour, if there is one.
pub open spec fn first_malformed(entries: Seq<Entry>) -> Option<int> {
    if exists|i: int| is_first_malformed(entries, i) {
        Some(choose|i: int| is_first_malformed(entries, i))
    } else {
        None
    }
}

/// The first entry that is no colour stands at one position only.
pub proof fn lemma_first_malformed_is(entries: Seq<Entry>, i: int)
    requires
        is_first_malformed(entries, i),
    ensures
        first_malformed(entries) == Some(i),
{
    let c = choose|c: int| is_first_malformed(entries, c);
    if c < i {
        assert(color_of(entries[c].1) is Ok);
    } else if i < c {
        assert(color_of(entries[i].1) is Ok);
    }
}

/// The named colours that the entries of an object write, where each of
/// them is a colour.
pub open spec fn entry_colors(entries: Seq<Entry>) -> Seq<NamedColor>
    recommends
        first_malformed(entries) is None,
{
    Seq::new(entries.len(), |i: int| (entries[i].0@, color_of(entries[i].1)->Ok_0))
}

impl PaletteError {
    /// Whether the error reports the first entry of `entries` that is no
    /// colour: its name, its value and what is wrong with the value.
    pub open spec fn is_first_malformed_of(self, entries: Seq<Entry>) -> bool {
        &&& first_malformed(entries) matches Some(i)
        &&& self.color@ == entries[i].0@
        &&& self.value == entries[i].1
        &&& color_of(entries[i].1) == Err::<Rgb, ColorError>(self.reason)
    }
}

impl Palette {
    /// Reads the entries of an object as the colours of a palette without a
    /// name, in the order of the object. The first entry that is no colour
    /// is handed back as the error.
    pub fn try_from(json: Vec<Entry>) -> (r: Result<Palette, PaletteError>)
        ensures
            match r {
                Ok(palette) => {
                    &&& first_malformed(json@) is None
                    &&& palette@ == PaletteView { name: None, colors: entry_colors(json@) }
                },
                Err(error) => error.is_first_malformed_of(json@),
            },
    {
        let mut colors: Vec<(String, Rgb)> = Vec::with_capacity(json.len());
        let ghost entries = json@;
        for entry in it: json.into_iter()
            invariant
                it.seq() == entries,
                colors.len() == it.index(),
                forall|j: int|
                    0 <= j < it.index() ==> color_of((#[trigger] entries[j]).1) == Ok::<
                        Rgb,
                        ColorError,
                    >(colors@[j].1) && colors@[j].0@ == entries[j].0@,
        {
            let (name, value) = entry;
            match parse_color(&value) {
                Ok(rgb) => colors.push((name, rgb)),
                Err(reason) => {
                    proof {
                        lemma_first_malformed_is(entries, it.index() as int);
                    }
                    return Err(PaletteError { color: name, value, reason });
                },
            }
        }
        proof {
            if exists|i: int| is_first_malformed(entries, i) {
                let i = choose|i: int| is_first_malformed(entries, i);
                assert(color_of(entries[i].1) is Ok);
            }
            assert(colors_view(colors@) =~= entry_colors(entries));
        }
        Ok(Palette { name: None, colors })
    }
}

/// Why a palette document does not give the palettes that were asked for.
#[derive(Debug, PartialEq, Eq)]
pub enum ParseError {
    /// The document, read as one flat palette, holds an entry that is no
    /// colour.
    Color { error: PaletteError },
    /// A style of the document whose value is not an object.
    StyleNotObject { style: String },
    /// A requested style that the document does not hold as an object.
    StyleMissing { style: String },
    /// A style of the document with an entry that is no colour.
    StyleColor { style: String, error: PaletteError },
}

/// Whether a value is a style that reads as a palette: an object whose
/// entries are all colours.
pub open spec fn is_style(value: JsonValue) -> bool {
    value matches JsonValue::Object(entries) && first_malformed(entries@) is None
}

/// The palette that a style of the given name and value reads as.
pub open spec fn style_palette(name: Seq<char>, value: JsonValue) -> PaletteView
    recommends
        is_style(value),
{
    PaletteView { name: Some(name), colors: entry_colors(value->Object_0@) }
}

/// Whether `i` is the position of the first entry that is no style.
pub open spec fn is_first_bad_style(entries: Seq<Entry>, i: int) -> bool {
    &&& 0 <= i < entries.len()
    &&& !is_style(entries[i].1)
    &&& forall|j: int| 0 <= j < i ==> is_style((#[trigger] entries[j]).1)
}

/// What is left of a document once the first entry with the key is taken
/// out of it.
pub open spec fn without_key(entries: Seq<Entry>, key: Seq<char>) -> Seq<Entry> {
    match position_of_key(entries, key) {
        Some(i) => entries.remove(i),
        None => entries,
    }
}

/// What is left of a document after the first `k` of the requested styles
/// were taken out of it, one after the other.
pub open spec fn left_after(entries: Seq<Entry>, styles: Seq<String>, k: int) -> Seq<Entry>
    decreases k,
{
    if k <= 0 {
        entries
    } else {
        without_key(left_after(entries, styles, k - 1), styles[k - 1]@)
    }
}

/// The value that the `k`-th request finds: that of the first entry with
/// the requested name among those that the earlier requests left.
pub open spec fn requested(entries: Seq<Entry>, styles: Seq<String>, k: int) -> Option<JsonValue> {
    let left = left_after(entries, styles, k);
    match position_of_key(left, styles[k]@) {
        Some(i) => Some(left[i].1),
        None => None,
    }
}

/// Whether the `k`-th request finds a style.
pub open spec fn is_granted(entries: Seq<Entry>, styles: Seq<String>, k: int) -> bool {
    requested(entries, styles, k) matches Some(value) && is_style(value)
}

/// Whether `k` is the position of the first request that finds no style.
pub open spec fn is_first_refused(entries: Seq<Entry>, styles: Seq<String>, k: int) -> bool {
    &&& 0 <= k < styles.len()
    &&& !is_granted(entries, styles, k)
    &&& forall|j: int| 0 <= j < k ==> #[trigger] is_granted(entries, styles, j)
}

impl ParseError {
    /// Whether the error reports that the name and value of a style do
    /// not read as a palette. `missing` says which error stands for a
    /// value that is not an object.
    pub open spec fn is_bad_style(self, name: Seq<char>, value: JsonValue, missing: bool) -> bool {
        match value {
            JsonValue::Object(entries) => {
                &&& self matches ParseError::StyleColor { style, error }
                &&& style@ == name
                &&& error.is_first_malformed_of(entries@)
            },
            _ => if missing {
                self matches ParseError::StyleMissing { style } && style@ == name
            } else {
                self matches ParseError::StyleNotObject { style } && style@ == name
            },
        }
    }
}

/// What reading a document under a selection of styles gives.
///
/// - `Flat`: the document itself is one palette without a name.
/// - `All`: each entry of the document is a style and gives one palette
///   under the entry's name, in the order of the document.
/// - `Selected`: each requested name, in the order given, takes its entry
///   out of the document and gives one palette under that name; a name
///   asked for twice finds nothing the second time.
///
/// The first entry or request that fails decides the error.
pub open spec fn is_parsed(
    entries: Seq<Entry>,
    styles: ColorPaletteStyles,
    r: Result<Vec<Palette>, ParseError>,
) -> bool {
    match styles {
        ColorPaletteStyles::Flat => match r {
            Ok(palettes) => {
                &&& first_malformed(entries) is None
                &&& palettes.len() == 1
                &&& palettes[0]@ == PaletteView { name: None, colors: entry_colors(entries) }
            },
            Err(error) => error matches ParseError::Color { error }
                && error.is_first_malformed_of(entries),
        },
        ColorPaletteStyles::All => match r {
            Ok(palettes) => {
                &&& palettes.len() == entries.len()
                &&& forall|i: int|
                    0 <= i < entries.len() ==> is_style((#[trigger] entries[i]).1) && palettes[i]@
                        == style_palette(entries[i].0@, entries[i].1)
            },
            Err(error) => exists|i: int|
                is_first_bad_style(entries, i) && error.is_bad_style(
                    entries[i].0@,
                    entries[i].1,
                    false,
                ),
        },
        ColorPaletteStyles::Selected { styles } => match r {
            Ok(palettes) => {
                &&& palettes.len() == styles.len()
                &&& forall|k: int|
                    0 <= k < styles.len() ==> #[trigger] is_granted(entries, styles@, k)
                        && palettes[k]@ == style_palette(
                        styles[k]@,
                        requested(entries, styles@, k)->0,
                    )
            },
            Err(error) => exists|k: int|
                is_first_refused(entries, styles@, k) && match requested(entries, styles@, k) {
                    Some(value) => error.is_bad_style(styles[k]@, value, true),
                    None => error matches ParseError::StyleMissing { style } && style@
                        == styles[k]@,
                },
        },
    }
}

/// Reads one style: an object gives the palette of its entries under the
/// style's name.
fn parse_style(style: String, value: JsonValue, missing: bool) -> (r: Result<Palette, ParseError>)
    ensures
        match r {
            Ok(palette) => is_style(value) && palette@ == style_palette(style@, value),
            Err(error) => !is_style(value) && error.is_bad_style(style@, value, missing),
        },
{
    match value {
        JsonValue::Object(map) => match Palette::try_from(map) {
            Ok(palette) => Ok(Palette { name: Some(style), colors: palette.colors }),
            Err(error) => Err(ParseError::StyleColor { style, error }),
        },
        _ => if missing {
            Err(ParseError::StyleMissing { style })
        } else {
            Err(ParseError::StyleNotObject { style })
        },
    }
}

/// Reads the palettes that a selection of styles asks of a palette
/// document.
#[verifier::loop_isolation(false)]
pub fn parse_palette(json: Vec<Entry>, styles: &ColorPaletteStyles) -> (r: Result<
    Vec<Palette>,
    ParseError,
>)
    ensures
        is_parsed(json@, *styles, r),
{
    match styles {
        ColorPaletteStyles::Flat => match Palette::try_from(json) {
            Ok(palette) => {
                let mut out: Vec<Palette> = Vec::new();
                out.push(palette);
                Ok(out)
            },
            Err(error) => Err(ParseError::Color { error }),
        },
        ColorPaletteStyles::All => {
            let ghost entries = json@;
            let mut out: Vec<Palette> = Vec::with_capacity(json.len());
            for entry in it: json.into_iter()
                invariant
                    it.seq() == entries,
                    out.len() == it.index(),
                    forall|i: int|
                        0 <= i < it.index() ==> is_style((#[trigger] entries[i]).1) && out@[i]@
                            == style_palette(entries[i].0@, entries[i].1),
            {
                let (style, value) = entry;
                match parse_style(style, value, false) {
                    Ok(palette) => out.push(palette),
                    Err(error) => {
                        assert(is_first_bad_style(entries, it.index() as int));
                        return Err(error);
                    },
                }
            }
            Ok(out)
        },
        ColorPaletteStyles::Selected { styles } => {
            let ghost entries = json@;
            let mut json = json;
            let mut out: Vec<Palette> = Vec::with_capacity(styles.len());
            let mut k: usize = 0;
            while k < styles.len()
                invariant
                    0 <= k <= styles.len(),
                    out.len() == k,
                    json@ == left_after(entries, styles@, k as int),
                    forall|j: int|
                        0 <= j < k ==> #[trigger] is_granted(entries, styles@, j) && out@[j]@
                            == style_palette(styles[j]@, requested(entries, styles@, j)->0),
                decreases styles.len() - k,
            {
                let style = &styles[k];
                let found = find_key(&json, style.as_str());
                let ghost left = json@;
                match found {
                    None => {
                        assert(is_first_refused(entries, styles@, k as int));
                        return Err(ParseError::StyleMissing { style: style.clone() });
                    },
                    Some(i) => {
                        let (_, value) = json.remove(i);
                        assert(json@ == left_after(entries, styles@, k + 1));
                        match parse_style(style.clone(), value, true) {
                            Ok(palette) => out.push(palette),
                            Err(error) => {
                                assert(is_first_refused(entries, styles@, k as int));
                                return Err(error);
                            },
                        }
                    },
                }
                k += 1;
            }
            Ok(out)
        },
    }
}
/// A style name as it stands in a file name: each space is replaced by an
/// underscore.
/// underscore.
pub open spec fn underscored(name: Seq<char>) -> Seq<char> {
    Seq::new(
        name.len(),
        |i: int|
            if name[i] == ' ' {
                '_'
            } else {
                name[i]
            },
    )
}

/// The part of a file name that lists the styles: for each palette that
/// has a name, in order, a hyphen and the name.
pub open spec fn style_suffix(palettes: Seq<Palette>) -> Seq<char>
    decreases palettes.len(),
{
    if palettes.len() == 0 {
        Seq::empty()
    } else {
        style_suffix(palettes.drop_last()) + match palettes.last().name {
            Some(name) => seq!['-'] + underscored(name@),
            None => Seq::empty(),
        }
    }
}

/// The part of a file name that tells the distance method: nothing for
/// the default method, else an underscore and the name of the formula.
pub open spec fn method_suffix(method: CLIDEMethod) -> Seq<char> {
    if method == CLIDEMethod::DE2000 {
        Seq::empty()
    } else {
        seq!['_'] + method.formula_name()
    }
}

/// The name of the file that holds the converted image.
pub open spec fn output_name(
    stem: Seq<char>,
    palette: ColorPalette,
    styles: Seq<Palette>,
    method: CLIDEMethod,
) -> Seq<char> {
    stem + seq!['_'] + palette.identifier() + style_suffix(styles) + method_suffix(method)
        + ".png"@
}

/// Appends a style name to a file name, with an underscore for each space.
fn push_underscored(out: &mut String, name: &str)
    ensures
        final(out)@ == old(out)@ + underscored(name@),
{
    let ghost start = out@;
    for c in it: name.chars()
        invariant
            it.seq() == name@,
            out@ == start + underscored(name@).take(it.index() as int),
    {
        out.push(
            if c == ' ' {
                '_'
            } else {
                c
            },
        );
        proof {
            assert(out@ =~= start + underscored(name@).take(it.index() + 1));
        }
    }
    proof {
        assert(underscored(name@).take(name@.len() as int) =~= underscored(name@));
    }
}

/// The name of the file that the converted image is written to, composed
/// of the stem of the input file's name, the identifier of the palette,
/// the names of the styles in the order in which they were resolved, the
/// distance method where it is not the default, and the extension `png`.
pub fn output_file_name(
    stem: &str,
    color_palette: &ColorPalette,
    color_palette_variations: &[Palette],
    method: CLIDEMethod,
) -> (name: String)
    ensures
        name@ == output_name(stem@, *color_palette, color_palette_variations@, method),
{
    let mut out = stem.to_owned();
    out.push('_');
    out.append(color_palette.identifier_str());
    let ghost head = out@;
    let mut i: usize = 0;
    while i < color_palette_variations.len()
        invariant
            0 <= i <= color_palette_variations.len(),
            out@ == head + style_suffix(color_palette_variations@.take(i as int)),
        decreases color_palette_variations.len() - i,
    {
        let ghost before = color_palette_variations@.take(i as int);
        let ghost after = color_palette_variations@.take(i + 1);
        proof {
            assert(after.drop_last() =~= before);
        }
        match &color_palette_variations[i].name {
            Some(name) => {
                out.push('-');
                push_underscored(&mut out, name.as_str());
                proof {
                    assert(out@ =~= head + style_suffix(after));
                }
            },
            None => {
                proof {
                    assert(out@ =~= head + style_suffix(after));
                }
            },
        }
        i += 1;
    }
    proof {
        assert(color_palette_variations@.take(i as int) =~= color_palette_variations@);
    }
    match method {
        CLIDEMethod::DE2000 => {},
        _ => {
            out.push('_');
            out.append(method.formula());
        },
    }
    out.append(".png");
    proof {
        assert(out@ =~= output_name(stem@, *color_palette, color_palette_variations@, method));
    }
    out
}

} // verus!
