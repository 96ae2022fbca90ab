//! Normalizing palettes before the search: the duplicate colours of each
//! palette are removed, and the colours of all palettes are lined up in
//! one array of L*a*b* colours.

use vstd::prelude::*;
use vstd::std_specs::iter::IteratorSpec;
use crate::color::Rgb;
use crate::config::{colors_view, NamedColor, Palette};
use crate::delta::{lab_of_rgb, Lab};
use crate::preview::{blue_of, green_of, red_of};

verus! {

/// Whether colour `a` comes before colour `b` when colours are ordered by
/// red, then green, then blue.
pub open spec fn comes_before(a: Rgb, b: Rgb) -> bool {
    a.r < b.r || (a.r == b.r && (a.g < b.g || (a.g == b.g && a.b < b.b)))
}

/// Whether the entry at `i` is the first one of its colour.
pub open spec fn is_first_of_color(colors: Seq<NamedColor>, i: int) -> bool {
    &&& 0 <= i < colors.len()
    &&& forall|j: int| 0 <= j < i ==> (#[trigger] colors[j]).1 != colors[i].1
}

/// Whether `entry` stands in `colors` as the first entry of its colour.
pub open spec fn is_first_entry(colors: Seq<NamedColor>, entry: NamedColor) -> bool {
    exists|i: int| is_first_of_color(colors, i) && colors[i] == entry
}

/// Whether some entry of `colors` has the colour.
pub open spec fn has_color(colors: Seq<NamedColor>, color: Rgb) -> bool {
    exists|j: int| 0 <= j < colors.len() && (#[trigger] colors[j]).1 == color
}

/// Whether the colours are in strictly ascending order, so that none
/// stands twice.
pub open spec fn is_ascending(colors: Seq<NamedColor>) -> bool {
    forall|i: int, j: int|
        0 <= i < j < colors.len() ==> comes_before(
            (#[trigger] colors[i]).1,
            (#[trigger] colors[j]).1,
        )
}

/// Whether `after` is `before` with the duplicate colours removed: the
/// colours stand in ascending order, each under the name of the first
/// entry that had the colour, and no colour is lost.
pub open spec fn is_deduplicated(before: Seq<NamedColor>, after: Seq<NamedColor>) -> bool {
    &&& is_ascending(after)
    &&& forall|j: int| 0 <= j < after.len() ==> is_first_entry(before, #[trigger] after[j])
    &&& forall|i: int| 0 <= i < before.len() ==> has_color(after, (#[trigger] before[i]).1)
}

/// An entry whose colour is already kept changes nothing.
proof fn lemma_dedup_skip(before: Seq<NamedColor>, kept: Seq<NamedColor>, n: int)
    requires
        0 <= n < before.len(),
        is_deduplicated(before.take(n), kept),
        has_color(kept, before[n].1),
    ensures
        is_deduplicated(before.take(n + 1), kept),
{
    let shorter = before.take(n);
    let longer = before.take(n + 1);
    assert forall|j: int| 0 <= j < kept.len() implies is_first_entry(
        longer,
        #[trigger] kept[j],
    ) by {
        assert(is_first_entry(shorter, kept[j]));
        let i = choose|i: int| is_first_of_color(shorter, i) && shorter[i] == kept[j];
        assert forall|w: int| 0 <= w < i implies (#[trigger] longer[w]).1 != longer[i].1 by {
            assert(shorter[w].1 != shorter[i].1);
        }
        assert(is_first_of_color(longer, i) && longer[i] == kept[j]);
    }
    assert forall|i: int| 0 <= i < longer.len() implies has_color(
        kept,
        (#[trigger] longer[i]).1,
    ) by {
        if i < n {
            assert(has_color(kept, shorter[i].1));
        }
    }
}

/// An entry whose colour is not kept yet is kept at the place that the
/// order gives it.
proof fn lemma_dedup_insert(
    before: Seq<NamedColor>,
    kept: Seq<NamedColor>,
    n: int,
    p: int,
)
    requires
        0 <= n < before.len(),
        is_deduplicated(before.take(n), kept),
        0 <= p <= kept.len(),
        forall|j: int| 0 <= j < p ==> comes_before((#[trigger] kept[j]).1, before[n].1),
        p < kept.len() ==> !comes_before(kept[p].1, before[n].1) && kept[p].1 != before[n].1,
    ensures
        is_deduplicated(before.take(n + 1), kept.insert(p, before[n])),
{
    let shorter = before.take(n);
    let longer = before.take(n + 1);
    let entry = before[n];
    let grown = kept.insert(p, entry);
    assert forall|j: int| p <= j < kept.len() implies comes_before(
        entry.1,
        (#[trigger] kept[j]).1,
    ) by {
        if j > p {
            assert(comes_before(kept[p].1, kept[j].1));
        }
    }
    assert forall|i: int, j: int| 0 <= i < j < grown.len() implies comes_before(
        (#[trigger] grown[i]).1,
        (#[trigger] grown[j]).1,
    ) by {
        let a = if i < p {
            i
        } else {
            i - 1
        };
        let b = if j < p {
            j
        } else {
            j - 1
        };
        if i != p && j != p {
            assert(grown[i] == kept[a] && grown[j] == kept[b]);
            assert(comes_before(kept[a].1, kept[b].1));
        } else if i == p {
            assert(grown[j] == kept[b]);
        } else {
            assert(grown[i] == kept[a]);
        }
    }
    assert(is_first_of_color(longer, n)) by {
        assert forall|w: int| 0 <= w < n implies (#[trigger] longer[w]).1 != longer[n].1 by {
            assert(has_color(kept, shorter[w].1));
            let j = choose|j: int| 0 <= j < kept.len() && kept[j].1 == shorter[w].1;
            if j < p {
                assert(comes_before(kept[j].1, entry.1));
            } else {
                assert(comes_before(entry.1, kept[j].1));
            }
        }
    }
    assert forall|j: int| 0 <= j < grown.len() implies is_first_entry(
        longer,
        #[trigger] grown[j],
    ) by {
        if j == p {
            assert(is_first_of_color(longer, n) && longer[n] == grown[j]);
        } else {
            let a = if j < p {
                j
            } else {
                j - 1
            };
            assert(grown[j] == kept[a]);
            assert(is_first_entry(shorter, kept[a]));
            let i = choose|i: int| is_first_of_color(shorter, i) && shorter[i] == kept[a];
            assert forall|w: int| 0 <= w < i implies (#[trigger] longer[w]).1 != longer[i].1 by {
                assert(shorter[w].1 != shorter[i].1);
            }
            assert(is_first_of_color(longer, i) && longer[i] == grown[j]);
        }
    }
    assert forall|i: int| 0 <= i < longer.len() implies has_color(
        grown,
        (#[trigger] longer[i]).1,
    ) by {
        if i < n {
            assert(has_color(kept, shorter[i].1));
            let j = choose|j: int| 0 <= j < kept.len() && kept[j].1 == shorter[i].1;
            let b = if j < p {
                j
            } else {
                j + 1
            };
            assert(grown[b] == kept[j]);
        } else {
            assert(grown[p] == entry);
        }
    }
}

/// Whether colour `a` comes before colour `b`.
pub fn rgb_comes_before(a: Rgb, b: Rgb) -> (r: bool)
    ensures
        r == comes_before(a, b),
{
    a.r < b.r || (a.r == b.r && (a.g < b.g || (a.g == b.g && a.b < b.b)))
}

/// The named colours without the duplicates: in ascending order of
/// colour, each colour once, under the name that it first had.
pub fn deduplicated(colors: Vec<(String, Rgb)>) -> (out: Vec<(String, Rgb)>)
    ensures
        is_deduplicated(colors_view(colors@), colors_view(out@)),
{
    let ghost before = colors_view(colors@);
    let ghost entries = colors@;
    let mut out: Vec<(String, Rgb)> = Vec::new();
    for entry in it: colors.into_iter()
        invariant
            it.seq() == entries,
            before == colors_view(entries),
            is_deduplicated(before.take(it.index() as int), colors_view(out@)),
    {
        let ghost n = it.index() as int;
        let ghost kept = colors_view(out@);
        let (name, rgb) = entry;
        assert(before[n] == (name@, rgb));
        let mut p: usize = 0;
        while p < out.len() && rgb_comes_before(out[p].1, rgb)
            invariant
                0 <= p <= out.len(),
                kept == colors_view(out@),
                forall|j: int| 0 <= j < p ==> comes_before((#[trigger] kept[j]).1, rgb),
            decreases out.len() - p,
        {
            p += 1;
        }
        if p < out.len() && out[p].1 == rgb {
            proof {
                assert(kept[p as int].1 == before[n].1);
                lemma_dedup_skip(before, kept, n);
            }
        } else {
            out.insert(p, (name, rgb));
            proof {
                assert(colors_view(out@) =~= kept.insert(p as int, before[n]));
                lemma_dedup_insert(before, kept, n, p as int);
            }
        }
    }
    proof {
        assert(before.take(before.len() as int) =~= before);
    }
    out
}

impl Palette {
    /// The palette without its duplicate colours: in ascending order of
    /// colour, each colour once, under the name that it first had.
    pub fn dedup(self) -> (out: Palette)
        ensures
            out@.name == self@.name,
            is_deduplicated(self@.colors, out@.colors),
    {
        Palette { name: self.name, colors: deduplicated(self.colors) }
    }
}

/// Removes the duplicate colours of every palette. Each palette is taken
/// on its own: a colour may still stand in two palettes.
pub fn dedup_palettes(palettes: Vec<Palette>) -> (out: Vec<Palette>)
    ensures
        out.len() == palettes.len(),
        forall|i: int|
            0 <= i < palettes.len() ==> (#[trigger] out[i])@.name == palettes[i]@.name
                && is_deduplicated(palettes[i]@.colors, out[i]@.colors),
{
    let ghost before = palettes@;
    let mut out: Vec<Palette> = Vec::with_capacity(palettes.len());
    for palette in it: palettes.into_iter()
        invariant
            it.seq() == before,
            out.len() == it.index(),
            forall|i: int|
                0 <= i < it.index() ==> (#[trigger] out[i])@.name == before[i]@.name
                    && is_deduplicated(before[i]@.colors, out[i]@.colors),
    {
        out.push(palette.dedup());
    }
    out
}

/// Colours in ascending order are pairwise different.
pub proof fn lemma_ascending_has_no_duplicates(colors: Seq<NamedColor>, i: int, j: int)
    requires
        is_ascending(colors),
        0 <= i < colors.len(),
        0 <= j < colors.len(),
        i != j,
    ensures
        colors[i].1 != colors[j].1,
{
    if i < j {
        assert(comes_before(colors[i].1, colors[j].1));
    } else {
        assert(comes_before(colors[j].1, colors[i].1));
    }
}

/// Two lists in ascending order that hold the same colours hold them at
/// the same positions.
proof fn lemma_ascending_same_colors(one: Seq<NamedColor>, other: Seq<NamedColor>)
    requires
        is_ascending(one),
        is_ascending(other),
        forall|c: Rgb| has_color(one, c) <==> has_color(other, c),
    ensures
        one.len() == other.len(),
        forall|k: int| 0 <= k < one.len() ==> (#[trigger] one[k]).1 == other[k].1,
    decreases one.len(),
{
    if one.len() == 0 {
        if other.len() > 0 {
            assert(has_color(other, other[0].1));
            assert(has_color(one, other[0].1));
        }
    } else {
        let n = one.len() - 1;
        assert(has_color(one, one[n].1));
        assert(has_color(other, one[n].1));
        let m = other.len() - 1;
        assert(has_color(other, other[m].1));
        assert(has_color(one, other[m].1));
        let j = choose|j: int| 0 <= j < other.len() && (#[trigger] other[j]).1 == one[n].1;
        let i = choose|i: int| 0 <= i < one.len() && (#[trigger] one[i]).1 == other[m].1;
        if j < m {
            assert(comes_before(other[j].1, other[m].1));
            if i < n {
                assert(comes_before(one[i].1, one[n].1));
            }
        }
        assert(one[n].1 == other[m].1);
        let a = one.drop_last();
        let b = other.drop_last();
        assert(is_ascending(a)) by {
            assert forall|x: int, y: int| 0 <= x < y < a.len() implies comes_before(
                (#[trigger] a[x]).1,
                (#[trigger] a[y]).1,
            ) by {
                assert(comes_before(one[x].1, one[y].1));
            }
        }
        assert(is_ascending(b)) by {
            assert forall|x: int, y: int| 0 <= x < y < b.len() implies comes_before(
                (#[trigger] b[x]).1,
                (#[trigger] b[y]).1,
            ) by {
                assert(comes_before(other[x].1, other[y].1));
            }
        }
        assert forall|c: Rgb| has_color(a, c) <==> has_color(b, c) by {
            if has_color(a, c) {
                let x = choose|x: int| 0 <= x < a.len() && (#[trigger] a[x]).1 == c;
                assert(one[x].1 == c);
                assert(comes_before(one[x].1, one[n].1));
                assert(has_color(one, c));
                assert(has_color(other, c));
                let y = choose|y: int| 0 <= y < other.len() && (#[trigger] other[y]).1 == c;
                assert(y != m);
                assert(b[y].1 == c);
            }
            if has_color(b, c) {
                let y = choose|y: int| 0 <= y < b.len() && (#[trigger] b[y]).1 == c;
                assert(other[y].1 == c);
                assert(comes_before(other[y].1, other[m].1));
                assert(has_color(other, c));
                assert(has_color(one, c));
                let x = choose|x: int| 0 <= x < one.len() && (#[trigger] one[x]).1 == c;
                assert(x != n);
                assert(a[x].1 == c);
            }
        }
        lemma_ascending_same_colors(a, b);
        assert forall|k: int| 0 <= k < one.len() implies (#[trigger] one[k]).1 == other[k].1 by {
            if k < n {
                assert(a[k].1 == b[k].1);
            }
        }
    }
}

/// A list without its duplicates holds the colours of the list, and no
/// others.
proof fn lemma_deduplicated_has_the_colors(
    before: Seq<NamedColor>,
    after: Seq<NamedColor>,
    color: Rgb,
)
    requires
        is_deduplicated(before, after),
    ensures
        has_color(after, color) <==> has_color(before, color),
{
    if has_color(after, color) {
        let j = choose|j: int| 0 <= j < after.len() && (#[trigger] after[j]).1 == color;
        assert(is_first_entry(before, after[j]));
        let i = choose|i: int| is_first_of_color(before, i) && before[i] == after[j];
        assert(before[i].1 == color);
    }
    if has_color(before, color) {
        let i = choose|i: int| 0 <= i < before.len() && (#[trigger] before[i]).1 == color;
        assert(has_color(after, before[i].1));
    }
}

/// Removing duplicates has one outcome only: two lists that both are a
/// given list without its duplicates are the same list.
pub proof fn lemma_deduplicated_is_unique(
    before: Seq<NamedColor>,
    one: Seq<NamedColor>,
    other: Seq<NamedColor>,
)
    requires
        is_deduplicated(before, one),
        is_deduplicated(before, other),
    ensures
        one == other,
{
    assert forall|c: Rgb| has_color(one, c) <==> has_color(other, c) by {
        lemma_deduplicated_has_the_colors(before, one, c);
        lemma_deduplicated_has_the_colors(before, other, c);
    }
    lemma_ascending_same_colors(one, other);
    assert forall|k: int| 0 <= k < one.len() implies one[k] == other[k] by {
        assert(one[k].1 == other[k].1);
        assert(is_first_entry(before, one[k]));
        assert(is_first_entry(before, other[k]));
        let i = choose|i: int| is_first_of_color(before, i) && before[i] == one[k];
        let j = choose|j: int| is_first_of_color(before, j) && before[j] == other[k];
        if i < j {
            assert(before[i].1 != before[j].1);
        } else if j < i {
            assert(before[j].1 != before[i].1);
        }
    }
    assert(one =~= other);
}

/// Removing duplicates from a list that has none changes nothing but the
/// order: a second pass leaves the list as the first pass made it.
pub proof fn lemma_deduplicated_twice(
    before: Seq<NamedColor>,
    once: Seq<NamedColor>,
    twice: Seq<NamedColor>,
)
    requires
        is_deduplicated(before, once),
        is_deduplicated(once, twice),
    ensures
        twice == once,
{
    assert(is_deduplicated(once, once)) by {
        assert forall|j: int| 0 <= j < once.len() implies is_first_entry(
            once,
            #[trigger] once[j],
        ) by {
            assert forall|w: int| 0 <= w < j implies (#[trigger] once[w]).1 != once[j].1 by {
                assert(comes_before(once[w].1, once[j].1));
            }
            assert(is_first_of_color(once, j) && once[j] == once[j]);
        }
        assert forall|i: int| 0 <= i < once.len() implies has_color(
            once,
            (#[trigger] once[i]).1,
        ) by {
            assert(once[i].1 == once[i].1);
        }
    }
    lemma_deduplicated_is_unique(once, once, twice);
}

/// The colours of one palette in L*a*b* space, in the order of the
/// palette.
pub open spec fn palette_labs(colors: Seq<(String, Rgb)>) -> Seq<Lab> {
    Seq::new(colors.len(), |i: int| lab_of_rgb(colors[i].1.r, colors[i].1.g, colors[i].1.b))
}

/// The colours of all palettes in L*a*b* space, one palette after the
/// other.
pub open spec fn palettes_labs(palettes: Seq<Palette>) -> Seq<Lab>
    decreases palettes.len(),
{
    if palettes.len() == 0 {
        Seq::empty()
    } else {
        palettes_labs(palettes.drop_last()) + palette_labs(palettes.last().colors@)
    }
}

/// The array of two lists of palettes, one after the other, is the array
/// of the first followed by the array of the second: the order in which
/// palettes are resolved is the order of their colours in the array.
pub proof fn lemma_labs_in_order(front: Seq<Palette>, back: Seq<Palette>)
    ensures
        palettes_labs(front + back) == palettes_labs(front) + palettes_labs(back),
    decreases back.len(),
{
    if back.len() == 0 {
        assert(front + back =~= front);
        assert(palettes_labs(front) + palettes_labs(back) =~= palettes_labs(front));
    } else {
        let whole = front + back;
        assert(whole.drop_last() =~= front + back.drop_last());
        assert(whole.last() == back.last());
        lemma_labs_in_order(front, back.drop_last());
        assert(palettes_labs(whole) =~= palettes_labs(front) + palettes_labs(back));
    }
}

/// Converts the colours of the palettes to L*a*b* space and lines them up
/// in one array, in the order of the palettes and, within each, of its
/// colours. This is the array that every pixel is searched against.
pub fn palettes_to_labs(palettes: &[Palette]) -> (labs: Vec<Lab>)
    ensures
        labs@ == palettes_labs(palettes@),
{
    let mut labs: Vec<Lab> = Vec::new();
    let mut i: usize = 0;
    while i < palettes.len()
        invariant
            0 <= i <= palettes.len(),
            labs@ == palettes_labs(palettes@.take(i as int)),
        decreases palettes.len() - i,
    {
        let colors = &palettes[i].colors;
        let ghost done = labs@;
        let mut j: usize = 0;
        while j < colors.len()
            invariant
                0 <= j <= colors.len(),
                labs@ == done + palette_labs(colors@).take(j as int),
            decreases colors.len() - j,
        {
            let c = colors[j].1;
            labs.push(Lab::from([c.r, c.g, c.b]));
            proof {
                assert(labs@ =~= done + palette_labs(colors@).take(j + 1));
            }
            j += 1;
        }
        proof {
            assert(palette_labs(colors@).take(colors@.len() as int) =~= palette_labs(colors@));
            assert(palettes@.take(i + 1).drop_last() =~= palettes@.take(i as int));
        }
        i += 1;
    }
    proof {
        assert(palettes@.take(i as int) =~= palettes@);
    }
    labs
}

/// The colours of a palette that packs each colour as `0xRRGGBB`, in
/// L*a*b* space.
pub open spec fn packed_labs(palette: Seq<(String, u32)>) -> Seq<Lab> {
    Seq::new(
        palette.len(),
        |i: int|
            lab_of_rgb(
                red_of(palette[i].1) as u8,
                green_of(palette[i].1) as u8,
                blue_of(palette[i].1) as u8,
            ),
    )
}

/// Converts the colours of a palette that packs each colour as `0xRRGGBB`
/// to L*a*b* space. Bits above the lowest 24 play no part.
pub fn convert_palette_to_labs(palette: &[(String, u32)]) -> (labs: Vec<Lab>)
    ensures
        labs@ == packed_labs(palette@),
{
    let mut labs: Vec<Lab> = Vec::with_capacity(palette.len());
    let mut i: usize = 0;
    while i < palette.len()
        invariant
            0 <= i <= palette.len(),
            labs@ == packed_labs(palette@).take(i as int),
        decreases palette.len() - i,
    {
        let value = palette[i].1;
        let r: u32 = (value >> 16) & 0xFF;
        let g: u32 = (value >> 8) & 0xFF;
        let b: u32 = value & 0xFF;
        assert(r < 256 && g < 256 && b < 256) by (bit_vector)
            requires
                r == (value >> 16) & 0xFF,
                g == (value >> 8) & 0xFF,
                b == value & 0xFF,
        ;
        labs.push(Lab::from_rgba(&[r as u8, g as u8, b as u8, 255]));
        proof {
            assert(labs@ =~= packed_labs(palette@).take(i + 1));
        }
        i += 1;
    }
    proof {
        assert(packed_labs(palette@).take(palette@.len() as int) =~= packed_labs(palette@));
    }
    labs
}

} // verus!
