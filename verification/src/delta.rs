//! Colours in CIE L*a*b* space, the perceptual distance between two of
//! them, and the search for the palette colour nearest to a pixel.
//!
//! The conversions between sRGB and L*a*b* are those of the `lab` crate and
//! the distance formulas those of the `deltae` crate. Both compute with
//! floating-point numbers, which this library never inspects: a `Lab` is
//! carried as an opaque value and a distance as the bit pattern of the
//! single-precision number that came back.

use vstd::prelude::*;
use vstd::std_specs::convert::FromSpecImpl;
use crate::distance::{
    best_so_far, distance_less, is_nan, is_zero, lemma_no_candidate_no_position, lemma_scan_step,
    lemma_tie_goes_to_first, lemma_zero_distance_wins, nearest_position, rank, INFINITY_BITS,
};

verus! {

/// `deltae::LabValue`, the three floating-point channels of a colour, made
/// known as a type so that a `Lab` can hold one. Nothing of its inside is
/// visible to a proof.
#[verifier::external_type_specification]
#[verifier::external_body]
pub struct ExLabValue(deltae::LabValue);

/// The perceptual distance formula that a run applies to every pixel.
#[derive(Copy, Clone, Debug, PartialEq, Eq, Structural)]
pub enum CLIDEMethod {
    /// CIEDE2000, with lightness, chroma and hue weighting, a rotation term
    /// and interaction terms.
    DE2000,
    /// CIE94, weighted with the tolerances for graphics.
    DE1994G,
    /// CIE94, weighted with the tolerances for textiles.
    DE1994T,
    /// CIE76, the Euclidean distance in L*a*b* space.
    DE1976,
}

impl Default for CLIDEMethod {
    fn default() -> (method: CLIDEMethod)
        ensures
            method == CLIDEMethod::DE2000,
    {
        CLIDEMethod::DE2000
    }
}

impl CLIDEMethod {
    /// The name under which the method is selected on the command line.
    pub open spec fn name(self) -> Seq<char> {
        match self {
            CLIDEMethod::DE2000 => "de2000"@,
            CLIDEMethod::DE1994G => "de1994g"@,
            CLIDEMethod::DE1994T => "de1994t"@,
            CLIDEMethod::DE1976 => "de1976"@,
        }
    }

    /// The name of the formula as it appears in the names of output files.
    pub open spec fn formula_name(self) -> Seq<char> {
        match self {
            CLIDEMethod::DE2000 => "DE2000"@,
            CLIDEMethod::DE1994G => "DE1994G"@,
            CLIDEMethod::DE1994T => "DE1994T"@,
            CLIDEMethod::DE1976 => "DE1976"@,
        }
    }

    /// The name under which the method is selected on the command line.
    pub fn to_string(&self) -> (text: String)
        ensures
            text@ == self.name(),
    {
        match self {
            CLIDEMethod::DE2000 => "de2000".to_owned(),
            CLIDEMethod::DE1994G => "de1994g".to_owned(),
            CLIDEMethod::DE1994T => "de1994t".to_owned(),
            CLIDEMethod::DE1976 => "de1976".to_owned(),
        }
    }

    /// The name of the formula as it appears in the names of output files.
    pub fn formula(&self) -> (text: &'static str)
        ensures
            text@ == self.formula_name(),
    {
        match self {
            CLIDEMethod::DE2000 => "DE2000",
            CLIDEMethod::DE1994G => "DE1994G",
            CLIDEMethod::DE1994T => "DE1994T",
            CLIDEMethod::DE1976 => "DE1976",
        }
    }
}

/// A colour in CIE L*a*b* space. A value is only ever obtained by
/// converting an sRGB colour.
#[derive(Clone, Copy, Debug)]
pub struct Lab {
    value: deltae::LabValue,
}

/// The L*a*b* colour that `lab::Lab::from_rgb` computes for an sRGB colour.
pub uninterp spec fn lab_of_rgb(r: u8, g: u8, b: u8) -> Lab;

/// The sRGB colour that `lab::Lab::to_rgb` computes for an L*a*b* colour.
pub uninterp spec fn rgb_of_lab(lab: Lab) -> (u8, u8, u8);

/// The bit pattern of the distance that `deltae::DeltaE::new` computes from
/// a reference colour to a sample colour under a method.
pub uninterp spec fn delta_e(reference: Lab, sample: Lab, method: CLIDEMethod) -> u32;

/// Calls `lab::Lab::from_rgb`, which runs the sRGB companding, the
/// linear-light matrix and the XYZ to L*a*b* map (D65 white) on the three
/// channels. The contract only gives the result its name: the conversion
/// is arithmetic on its argument and nothing else.
#[verifier::external_body]
fn lab_from_rgb(rgb: &[u8; 3]) -> (out: Lab)
    ensures
        out == lab_of_rgb(rgb[0], rgb[1], rgb[2]),
{
    let lab = lab::Lab::from_rgb(rgb);
    Lab { value: deltae::LabValue { l: lab.l, a: lab.a, b: lab.b } }
}

/// Calls `lab::Lab::to_rgb`, the inverse map with each channel rounded and
/// clamped to eight bits. The contract only gives the result its name.
#[verifier::external_body]
fn lab_to_rgb(lab: &Lab) -> (out: [u8; 3])
    ensures
        (out[0], out[1], out[2]) == rgb_of_lab(*lab),
{
    lab::Lab { l: lab.value.l, a: lab.value.a, b: lab.value.b }.to_rgb()
}

/// Calls `deltae::DeltaE::new` with the formula that the method selects and
/// hands back the bit pattern of `DeltaE::value`. The contract only gives
/// the result its name: each formula is arithmetic on the two colours.
#[verifier::external_body]
fn delta_e_bits(reference: &Lab, sample: &Lab, method: CLIDEMethod) -> (bits: u32)
    ensures
        bits == delta_e(*reference, *sample, method),
{
    let method = match method {
        CLIDEMethod::DE2000 => deltae::DEMethod::DE2000,
        CLIDEMethod::DE1994G => deltae::DEMethod::DE1994G,
        CLIDEMethod::DE1994T => deltae::DEMethod::DE1994T,
        CLIDEMethod::DE1976 => deltae::DEMethod::DE1976,
    };
    deltae::DeltaE::new(reference.value, sample.value, method).value().to_bits()
}

impl From<[u8; 3]> for Lab {
    fn from(value: [u8; 3]) -> (out: Lab) {
        lab_from_rgb(&value)
    }
}

impl FromSpecImpl<[u8; 3]> for Lab {
    open spec fn obeys_from_spec() -> bool {
        true
    }

    open spec fn from_spec(value: [u8; 3]) -> Lab {
        lab_of_rgb(value[0], value[1], value[2])
    }
}

impl From<[u8; 4]> for Lab {
    fn from(value: [u8; 4]) -> (out: Lab) {
        lab_from_rgb(&[value[0], value[1], value[2]])
    }
}

impl FromSpecImpl<[u8; 4]> for Lab {
    open spec fn obeys_from_spec() -> bool {
        true
    }

    /// The fourth channel, alpha, plays no part.
    open spec fn from_spec(value: [u8; 4]) -> Lab {
        lab_of_rgb(value[0], value[1], value[2])
    }
}

/// The distances from a pixel to each colour of a palette, in palette order.
pub open spec fn distances(pixel: Lab, palette: Seq<Lab>, method: CLIDEMethod) -> Seq<u32> {
    Seq::new(palette.len(), |i: int| delta_e(pixel, palette[i], method))
}

/// The position in the palette of the colour nearest to the pixel: the
/// first among those at the least distance. `None` where no distance is a
/// number below infinity; an empty palette is such a case.
pub open spec fn nearest_in(pixel: Lab, palette: Seq<Lab>, method: CLIDEMethod) -> Option<int> {
    nearest_position(distances(pixel, palette, method))
}

/// The palette colour nearest to the pixel, or the pixel itself where the
/// palette has no nearest colour.
pub open spec fn nearest(pixel: Lab, palette: Seq<Lab>, method: CLIDEMethod) -> Lab {
    match nearest_in(pixel, palette, method) {
        Some(k) => palette[k],
        None => pixel,
    }
}

impl Lab {
    /// The position in `palette` of the colour nearest to `self` under
    /// `method`. A linear scan in palette order that moves on only to a
    /// strictly smaller distance, so that of several colours at the same
    /// distance the first one is chosen.
    pub fn nearest_palette_index(self, palette: &[Lab], method: CLIDEMethod) -> (r: Option<usize>)
        ensures
            match r {
                Some(k) => nearest_in(self, palette@, method) == Some(k as int),
                None => nearest_in(self, palette@, method) is None,
            },
    {
        let ghost ds = distances(self, palette@, method);
        let mut best: u32 = INFINITY_BITS;
        let mut chosen: Option<usize> = None;
        let mut i: usize = 0;
        proof {
            lemma_no_candidate_no_position(ds.take(0));
        }
        while i < palette.len()
            invariant
                0 <= i <= palette.len(),
                ds == distances(self, palette@, method),
                match chosen {
                    Some(k) => nearest_position(ds.take(i as int)) == Some(k as int),
                    None => nearest_position(ds.take(i as int)) is None,
                },
                best == best_so_far(ds, nearest_position(ds.take(i as int))),
            decreases palette.len() - i,
        {
            let d = delta_e_bits(&self, &palette[i], method);
            proof {
                lemma_scan_step(ds, i as int);
            }
            if distance_less(d, best) {
                best = d;
                chosen = Some(i);
            }
            i += 1;
        }
        proof {
            assert(ds.take(i as int) =~= ds);
        }
        chosen
    }

    /// The colour of `palette` nearest to `self` under `method`; `self`
    /// where the palette has no nearest colour.
    pub fn to_nearest_palette(self, palette: &[Lab], method: CLIDEMethod) -> (out: Lab)
        ensures
            out == nearest(self, palette@, method),
    {
        match self.nearest_palette_index(palette, method) {
            Some(k) => palette[k],
            None => self,
        }
    }

    /// The colour of a pixel in L*a*b* space. The pixel's fourth channel,
    /// alpha, plays no part.
    pub fn from_rgba(rgba: &[u8; 4]) -> (out: Lab)
        ensures
            out == lab_of_rgb(rgba[0], rgba[1], rgba[2]),
    {
        lab_from_rgb(&[rgba[0], rgba[1], rgba[2]])
    }

    /// The distance from `self` to `sample` under `method`, as the bit
    /// pattern of a single-precision number.
    pub fn delta(self, sample: Lab, method: CLIDEMethod) -> (bits: u32)
        ensures
            bits == delta_e(self, sample, method),
    {
        delta_e_bits(&self, &sample, method)
    }

    /// The sRGB colour of this L*a*b* colour.
    pub fn to_rgb(self) -> (out: [u8; 3])
        ensures
            (out[0], out[1], out[2]) == rgb_of_lab(self),
    {
        lab_to_rgb(&self)
    }
}

/// A colour that stands twice in a palette is never chosen at its later
/// position, whatever the pixel and the method.
pub proof fn lemma_duplicate_never_chosen(
    pixel: Lab,
    palette: Seq<Lab>,
    method: CLIDEMethod,
    i: int,
    j: int,
)
    requires
        0 <= i < j < palette.len(),
        palette[i] == palette[j],
    ensures
        nearest_in(pixel, palette, method) != Some(j),
{
    lemma_tie_goes_to_first(distances(pixel, palette, method), i, j);
}

/// The distances from `pixel` into `palette` behave as those of a metric
/// around the pixel: the distance from the pixel to itself is zero, no
/// distance is negative, and only the pixel's own colour is at distance
/// zero.
pub open spec fn self_distance_is_least(
    pixel: Lab,
    palette: Seq<Lab>,
    method: CLIDEMethod,
) -> bool {
    &&& is_zero(delta_e(pixel, pixel, method))
    &&& forall|j: int|
        0 <= j < palette.len() ==> {
            let d = #[trigger] delta_e(pixel, palette[j], method);
            &&& is_nan(d) || rank(d) >= 0
            &&& is_zero(d) ==> palette[j] == pixel
        }
}

/// A pixel whose colour stands in the palette is matched to that colour,
/// provided the distance that the method gives is zero from the pixel to
/// itself and greater than zero to every other colour of the palette.
pub proof fn lemma_exact_match_wins(pixel: Lab, palette: Seq<Lab>, method: CLIDEMethod, k: int)
    requires
        0 <= k < palette.len(),
        palette[k] == pixel,
        self_distance_is_least(pixel, palette, method),
    ensures
        nearest(pixel, palette, method) == pixel,
{
    let ds = distances(pixel, palette, method);
    assert forall|j: int| 0 <= j < ds.len() implies is_nan(#[trigger] ds[j]) || rank(ds[j])
        >= 0 by {
        let d = delta_e(pixel, palette[j], method);
        assert(is_nan(d) || rank(d) >= 0);
    }
    lemma_zero_distance_wins(ds, k);
    let i = nearest_position(ds)->0;
    assert(is_zero(delta_e(pixel, palette[i], method)));
}

} // verus!
