use dipc::convert_image_format::{recolor_pixel, recolor_pixels, CHUNK};
use dipc::delta::{CLIDEMethod, Lab};

const METHODS: [CLIDEMethod; 4] =
    [CLIDEMethod::DE2000, CLIDEMethod::DE1994G, CLIDEMethod::DE1994T, CLIDEMethod::DE1976];

fn nord() -> Vec<Lab> {
    let colours: [[u8; 3]; 16] = [
        [0x2e, 0x34, 0x40],
        [0x3b, 0x42, 0x52],
        [0x43, 0x4c, 0x5e],
        [0x4c, 0x56, 0x6a],
        [0xd8, 0xde, 0xe9],
        [0xe5, 0xe9, 0xf0],
        [0xec, 0xef, 0xf4],
        [0x8f, 0xbc, 0xbb],
        [0x88, 0xc0, 0xd0],
        [0x81, 0xa1, 0xc1],
        [0x5e, 0x81, 0xac],
        [0xbf, 0x61, 0x6a],
        [0xd0, 0x87, 0x70],
        [0xeb, 0xcb, 0x8b],
        [0xa3, 0xbe, 0x8c],
        [0xb4, 0x8e, 0xad],
    ];
    colours.iter().map(|c| Lab::from(*c)).collect()
}

fn noise(len: usize) -> Vec<u8> {
    let mut seed: u32 = 2024;
    let mut out = Vec::with_capacity(len);
    for _ in 0..len {
        seed = seed.wrapping_mul(1_664_525).wrapping_add(1_013_904_223);
        out.push((seed >> 24) as u8);
    }
    out
}

#[test]
fn a_pixel_has_four_bytes() {
    assert_eq!(CHUNK, 4);
}

#[test]
fn alpha_is_kept() {
    let palettes: [Vec<Lab>; 3] = [nord(), vec![Lab::from([0, 0, 0])], vec![]];
    for palette in &palettes {
        for method in METHODS {
            assert_eq!(recolor_pixel([10, 20, 30, 128], palette, method)[3], 128);
            assert_eq!(recolor_pixel([10, 20, 30, 0], palette, method)[3], 0);
            assert_eq!(recolor_pixel([10, 20, 30, 255], palette, method)[3], 255);
        }
    }
}

#[test]
fn a_pixel_takes_the_nearest_colour() {
    let palette = [Lab::from([0, 0, 0]), Lab::from([255, 255, 255]), Lab::from([255, 0, 0])];
    for method in METHODS {
        assert_eq!(recolor_pixel([10, 20, 30, 128], &palette, method), [0, 0, 0, 128]);
        assert_eq!(recolor_pixel([250, 250, 240, 7], &palette, method), [255, 255, 255, 7]);
        assert_eq!(recolor_pixel([220, 30, 20, 255], &palette, method), [255, 0, 0, 255]);
    }
}

#[test]
fn a_pixel_keeps_its_colour_without_a_palette() {
    for method in METHODS {
        assert_eq!(recolor_pixel([10, 20, 30, 128], &[], method), [10, 20, 30, 128]);
    }
}

#[test]
fn a_buffer_is_recoloured_pixel_by_pixel() {
    let palette = nord();
    for method in METHODS {
        let before = noise(4 * 257);
        let mut after = before.clone();
        recolor_pixels(&mut after, &palette, method);
        assert_eq!(after.len(), before.len());
        for (old, new) in before.chunks_exact(4).zip(after.chunks_exact(4)) {
            let expected = recolor_pixel([old[0], old[1], old[2], old[3]], &palette, method);
            assert_eq!(new, expected);
            assert_eq!(new[3], old[3]);
        }
    }
}

#[test]
fn every_pixel_of_the_result_is_a_palette_colour() {
    let colours: [[u8; 3]; 3] = [[0, 0, 0], [255, 255, 255], [255, 0, 0]];
    let palette: Vec<Lab> = colours.iter().map(|c| Lab::from(*c)).collect();
    let mut bytes = noise(4 * 100);
    recolor_pixels(&mut bytes, &palette, CLIDEMethod::DE2000);
    for pixel in bytes.chunks_exact(4) {
        assert!(colours.contains(&[pixel[0], pixel[1], pixel[2]]));
    }
}

#[test]
fn bytes_after_the_last_whole_pixel_are_kept() {
    let palette = [Lab::from([0, 0, 0])];
    for extra in 1..4usize {
        let before = noise(8 + extra);
        let mut after = before.clone();
        recolor_pixels(&mut after, &palette, CLIDEMethod::DE2000);
        assert_eq!(after.len(), before.len());
        assert_eq!(&after[..8], &[0, 0, 0, before[3], 0, 0, 0, before[7]]);
        assert_eq!(&after[8..], &before[8..]);
    }
    let mut short = vec![9u8, 8, 7];
    recolor_pixels(&mut short, &palette, CLIDEMethod::DE2000);
    assert_eq!(short, vec![9, 8, 7]);
    let mut empty: Vec<u8> = Vec::new();
    recolor_pixels(&mut empty, &palette, CLIDEMethod::DE2000);
    assert!(empty.is_empty());
}

#[test]
fn the_transform_gives_the_same_result_each_time() {
    let palette = nord();
    for method in METHODS {
        let before = noise(4 * 500);
        let mut first = before.clone();
        let mut second = before.clone();
        recolor_pixels(&mut first, &palette, method);
        recolor_pixels(&mut second, &palette, method);
        assert_eq!(first, second);
    }
}

#[test]
fn the_transform_in_parts_is_the_transform_of_the_whole() {
    let palette = nord();
    let before = noise(4 * 240 + 3);
    let mut whole = before.clone();
    recolor_pixels(&mut whole, &palette, CLIDEMethod::DE2000);
    for part in [4usize, 8, 64, 400] {
        let mut parts = before.clone();
        for chunk in parts.chunks_mut(part).rev() {
            recolor_pixels(chunk, &palette, CLIDEMethod::DE2000);
        }
        assert_eq!(parts, whole);
    }
}

#[test]
fn a_palette_colour_stays_as_it_is() {
    let palette = nord();
    for method in METHODS {
        let mut bytes = vec![0x2e, 0x34, 0x40, 1, 0xb4, 0x8e, 0xad, 2, 0x88, 0xc0, 0xd0, 3];
        let before = bytes.clone();
        recolor_pixels(&mut bytes, &palette, method);
        assert_eq!(bytes, before);
    }
}
