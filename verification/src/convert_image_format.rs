//! The transform itself: every pixel of a buffer of RGBA bytes is replaced
//! by the nearest colour of the palette. The alpha channel is left as it
//! is.

use vstd::prelude::*;
use crate::delta::{
    lab_of_rgb, lemma_exact_match_wins, nearest, rgb_of_lab, self_distance_is_least, CLIDEMethod,
    Lab,
};

verus! {

/// Bytes per pixel: red, green, blue, alpha.
pub const CHUNK: usize = 4;

/// The colour that replaces the colour `(r, g, b)`: the palette colour
/// nearest to it in L*a*b* space, brought back to sRGB.
pub open spec fn recolored(r: u8, g: u8, b: u8, palette: Seq<Lab>, method: CLIDEMethod) -> (
    u8,
    u8,
    u8,
) {
    rgb_of_lab(nearest(lab_of_rgb(r, g, b), palette, method))
}

/// The byte at position `i` of a buffer after the transform. A byte of a
/// whole pixel is the red, green or blue channel of the colour that
/// replaces the pixel's, or the pixel's alpha unchanged. Bytes after the
/// last whole pixel stay as they are.
pub open spec fn recolored_byte(
    bytes: Seq<u8>,
    palette: Seq<Lab>,
    method: CLIDEMethod,
    i: int,
) -> u8 {
    let first = i - i % 4;
    if first + 4 <= bytes.len() {
        let to = recolored(bytes[first], bytes[first + 1], bytes[first + 2], palette, method);
        if i % 4 == 0 {
            to.0
        } else if i % 4 == 1 {
            to.1
        } else if i % 4 == 2 {
            to.2
        } else {
            bytes[i]
        }
    } else {
        bytes[i]
    }
}

/// A buffer after the transform.
pub open spec fn recolored_bytes(bytes: Seq<u8>, palette: Seq<Lab>, method: CLIDEMethod) -> Seq<
    u8,
> {
    Seq::new(bytes.len(), |i: int| recolored_byte(bytes, palette, method, i))
}

/// Replaces the colour of one pixel by the nearest colour of the palette
/// and keeps its alpha.
pub fn recolor_pixel(pixel: [u8; 4], palette: &[Lab], method: CLIDEMethod) -> (out: [u8; 4])
    ensures
        (out[0], out[1], out[2]) == recolored(pixel[0], pixel[1], pixel[2], palette@, method),
        out[3] == pixel[3],
{
    let lab = Lab::from(pixel);
    let rgb = lab.to_nearest_palette(palette, method).to_rgb();
    [rgb[0], rgb[1], rgb[2], pixel[3]]
}

/// Replaces the colour of every whole pixel of the buffer, in place. The
/// length of the buffer and every alpha byte stay as they are.
pub fn recolor_pixels(bytes: &mut [u8], palette: &[Lab], method: CLIDEMethod)
    ensures
        final(bytes)@ == recolored_bytes(old(bytes)@, palette@, method),
{
    let n = bytes.len();
    let mut at: usize = 0;
    while n - at >= 4
        invariant
            n == bytes.len(),
            n == old(bytes)@.len(),
            at <= n,
            at % 4 == 0,
            forall|i: int|
                0 <= i < at ==> bytes@[i] == recolored_byte(old(bytes)@, palette@, method, i),
            forall|i: int| at <= i < n ==> bytes@[i] == old(bytes)@[i],
        decreases n - at,
    {
        let out = recolor_pixel(
            [bytes[at], bytes[at + 1], bytes[at + 2], bytes[at + 3]],
            palette,
            method,
        );
        bytes[at] = out[0];
        bytes[at + 1] = out[1];
        bytes[at + 2] = out[2];
        proof {
            assert forall|i: int| at <= i < at + 4 implies bytes@[i] == recolored_byte(
                old(bytes)@,
                palette@,
                method,
                i,
            ) by {
                assert(i - i % 4 == at);
            }
        }
        at += 4;
    }
    proof {
        assert forall|i: int| at <= i < n implies bytes@[i] == recolored_byte(
            old(bytes)@,
            palette@,
            method,
            i,
        ) by {
            assert(i - i % 4 == at);
        }
        assert(bytes@ =~= recolored_bytes(old(bytes)@, palette@, method));
    }
}

/// The colours of the whole pixels of a buffer in L*a*b* space.
pub open spec fn pixel_labs(bytes: Seq<u8>) -> Seq<Lab> {
    Seq::new(
        (bytes.len() / 4) as nat,
        |i: int| lab_of_rgb(bytes[4 * i], bytes[4 * i + 1], bytes[4 * i + 2]),
    )
}

/// Converts every whole pixel of a buffer of RGBA bytes to L*a*b* space.
pub fn rgba_pixels_to_labs(bytes: &[u8]) -> (labs: Vec<Lab>)
    ensures
        labs@ == pixel_labs(bytes@),
{
    let count = bytes.len() / 4;
    let mut labs: Vec<Lab> = Vec::with_capacity(count);
    let mut i: usize = 0;
    while i < count
        invariant
            0 <= i <= count,
            count == bytes.len() / 4,
            labs@ == pixel_labs(bytes@).take(i as int),
        decreases count - i,
    {
        let rgba = [bytes[4 * i], bytes[4 * i + 1], bytes[4 * i + 2], bytes[4 * i + 3]];
        labs.push(Lab::from_rgba(&rgba));
        proof {
            assert(labs@ =~= pixel_labs(bytes@).take(i + 1));
        }
        i += 1;
    }
    proof {
        assert(pixel_labs(bytes@).take(count as int) =~= pixel_labs(bytes@));
    }
    labs
}

/// Whether an sRGB colour comes back unchanged from L*a*b* space.
pub open spec fn round_trips(r: u8, g: u8, b: u8) -> bool {
    rgb_of_lab(lab_of_rgb(r, g, b)) == (r, g, b)
}

/// A pixel that has a colour of the palette keeps it, provided that the
/// colour comes back unchanged from L*a*b* space and that the distances
/// from it behave as those of a metric.
pub proof fn lemma_palette_colour_is_kept(
    r: u8,
    g: u8,
    b: u8,
    palette: Seq<Lab>,
    method: CLIDEMethod,
    k: int,
)
    requires
        0 <= k < palette.len(),
        palette[k] == lab_of_rgb(r, g, b),
        round_trips(r, g, b),
        self_distance_is_least(lab_of_rgb(r, g, b), palette, method),
    ensures
        recolored(r, g, b, palette, method) == (r, g, b),
{
    lemma_exact_match_wins(lab_of_rgb(r, g, b), palette, method, k);
}

/// The transform keeps the length of the buffer and every alpha byte.
pub proof fn lemma_alpha_is_kept(bytes: Seq<u8>, palette: Seq<Lab>, method: CLIDEMethod, i: int)
    requires
        0 <= i < bytes.len(),
        i % 4 == 3,
    ensures
        recolored_bytes(bytes, palette, method).len() == bytes.len(),
        recolored_bytes(bytes, palette, method)[i] == bytes[i],
{
}

/// The colour that replaces a pixel depends on that pixel alone, besides
/// the palette and the method: two buffers that agree on a whole pixel
/// agree on it after the transform, whatever else they hold.
pub proof fn lemma_pixel_is_independent(
    one: Seq<u8>,
    other: Seq<u8>,
    palette: Seq<Lab>,
    method: CLIDEMethod,
    i: int,
    k: int,
)
    requires
        i % 4 == 0,
        k % 4 == 0,
        0 <= i && i + 4 <= one.len(),
        0 <= k && k + 4 <= other.len(),
        one.subrange(i, i + 4) == other.subrange(k, k + 4),
    ensures
        recolored_bytes(one, palette, method).subrange(i, i + 4) == recolored_bytes(
            other,
            palette,
            method,
        ).subrange(k, k + 4),
{
    let a = recolored_bytes(one, palette, method).subrange(i, i + 4);
    let b = recolored_bytes(other, palette, method).subrange(k, k + 4);
    assert forall|j: int| 0 <= j < 4 implies a[j] == b[j] by {
        let p = one.subrange(i, i + 4);
        let q = other.subrange(k, k + 4);
        assert(p[0] == one[i] && p[1] == one[i + 1] && p[2] == one[i + 2] && p[3] == one[i + 3]);
        assert(q[0] == other[k] && q[1] == other[k + 1] && q[2] == other[k + 2] && q[3]
            == other[k + 3]);
        assert((i + j) - (i + j) % 4 == i);
        assert((k + j) - (k + j) % 4 == k);
        assert((i + j) % 4 == j && (k + j) % 4 == j);
    }
    assert(a =~= b);
}

/// A buffer may be cut between two pixels and its parts transformed on
/// their own, in any order and by any number of workers: the parts put
/// together again are the transform of the whole.
pub proof fn lemma_transform_in_parts(
    front: Seq<u8>,
    back: Seq<u8>,
    palette: Seq<Lab>,
    method: CLIDEMethod,
)
    requires
        front.len() % 4 == 0,
    ensures
        recolored_bytes(front + back, palette, method) == recolored_bytes(front, palette, method)
            + recolored_bytes(back, palette, method),
{
    let whole = front + back;
    let n = front.len() as int;
    let together = recolored_bytes(front, palette, method) + recolored_bytes(back, palette, method);
    assert forall|i: int| 0 <= i < whole.len() implies recolored_bytes(whole, palette, method)[i]
        == together[i] by {
        let first = i - i % 4;
        if i < n {
            assert(first + 4 <= n);
            assert(whole[first] == front[first]);
            assert(whole[first + 1] == front[first + 1]);
            assert(whole[first + 2] == front[first + 2]);
            assert(whole[i] == front[i]);
        } else {
            let k = i - n;
            assert(k % 4 == i % 4);
            let first_k = k - k % 4;
            assert(first == first_k + n);
            assert(whole[i] == back[k]);
            if first_k + 4 <= back.len() {
                assert(whole[first] == back[first_k]);
                assert(whole[first + 1] == back[first_k + 1]);
                assert(whole[first + 2] == back[first_k + 2]);
            }
        }
    }
    assert(recolored_bytes(whole, palette, method) =~= together);
}

} // verus!
