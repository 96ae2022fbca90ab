use dipc::cli::{ColorPalette, ColorPaletteStyles};
use dipc::color::{ColorError, Rgb};
use dipc::config::{output_file_name, parse_palette, Palette, PaletteError, ParseError};
use dipc::normalize::{dedup_palettes, deduplicated, palettes_to_labs, rgb_comes_before};
use dipc::delta::{CLIDEMethod, Lab};
use dipc::json::{find_key, JsonNumber, JsonValue};

fn num(n: u64) -> JsonValue {
    JsonValue::Number(JsonNumber::Unsigned(n))
}

fn text(s: &str) -> JsonValue {
    JsonValue::String(s.to_string())
}

fn array(r: u64, g: u64, b: u64) -> JsonValue {
    JsonValue::Array(vec![num(r), num(g), num(b)])
}

fn object(entries: Vec<(&str, JsonValue)>) -> Vec<(String, JsonValue)> {
    entries.into_iter().map(|(k, v)| (k.to_string(), v)).collect()
}

fn rgb(r: u8, g: u8, b: u8) -> Rgb {
    Rgb { r, g, b }
}

fn named(entries: &[(&str, Rgb)]) -> Vec<(String, Rgb)> {
    entries.iter().map(|(k, c)| (k.to_string(), *c)).collect()
}

fn palette(name: Option<&str>, entries: &[(&str, Rgb)]) -> Palette {
    Palette { name: name.map(|n| n.to_string()), colors: named(entries) }
}

fn light_dark() -> Vec<(String, JsonValue)> {
    object(vec![
        ("light", JsonValue::Object(object(vec![("x", text("#FFFFFF"))]))),
        ("dark", JsonValue::Object(object(vec![("x", text("#000000"))]))),
    ])
}

fn selected(names: &[&str]) -> ColorPaletteStyles {
    ColorPaletteStyles::Selected { styles: names.iter().map(|n| n.to_string()).collect() }
}

#[test]
fn find_key_gives_the_first_entry_with_the_key() {
    let o = object(vec![("a", num(1)), ("b", num(2)), ("a", num(3))]);
    assert_eq!(find_key(&o, "a"), Some(0));
    assert_eq!(find_key(&o, "b"), Some(1));
    assert_eq!(find_key(&o, "c"), None);
    assert_eq!(find_key(&o, ""), None);
    assert_eq!(find_key(&object(vec![]), "a"), None);
}

#[test]
fn try_from_reads_the_colours_in_order() {
    let json = object(vec![
        ("nord0", text("#2E3440")),
        ("snow", array(216, 222, 233)),
        ("red", JsonValue::Object(object(vec![("r", num(191)), ("g", num(97)), ("b", num(106))]))),
        ("short", text("#abc")),
    ]);
    let got = Palette::try_from(json);
    assert_eq!(
        got,
        Ok(palette(
            None,
            &[
                ("nord0", rgb(46, 52, 64)),
                ("snow", rgb(216, 222, 233)),
                ("red", rgb(191, 97, 106)),
                ("short", rgb(0xaa, 0xbb, 0xcc)),
            ]
        ))
    );
}

#[test]
fn try_from_of_an_empty_object_is_an_empty_palette() {
    assert_eq!(Palette::try_from(object(vec![])), Ok(palette(None, &[])));
}

#[test]
fn try_from_takes_other_shapes_as_black() {
    let json = object(vec![("a", JsonValue::Null), ("b", JsonValue::Bool(true)), ("c", num(7))]);
    assert_eq!(
        Palette::try_from(json),
        Ok(palette(None, &[("a", rgb(0, 0, 0)), ("b", rgb(0, 0, 0)), ("c", rgb(0, 0, 0))]))
    );
}

#[test]
fn try_from_reports_the_entry_and_its_value() {
    let json = object(vec![("good", text("#fff")), ("bad", text("#12")), ("worse", text("nope"))]);
    assert_eq!(
        Palette::try_from(json),
        Err(PaletteError { color: "bad".to_string(), value: text("#12"), reason: ColorError::HexLength })
    );
    let json = object(vec![("over", array(1, 2, 256))]);
    assert_eq!(
        Palette::try_from(json),
        Err(PaletteError {
            color: "over".to_string(),
            value: array(1, 2, 256),
            reason: ColorError::ArrayRange { index: 2 },
        })
    );
}

#[test]
fn flat_reads_the_document_as_one_unnamed_palette() {
    let json = object(vec![("a", text("#010203")), ("b", array(4, 5, 6))]);
    assert_eq!(
        parse_palette(json, &ColorPaletteStyles::Flat),
        Ok(vec![palette(None, &[("a", rgb(1, 2, 3)), ("b", rgb(4, 5, 6))])])
    );
}

#[test]
fn flat_reports_a_malformed_colour() {
    let json = object(vec![("a", text("#010203")), ("b", text("#12"))]);
    assert_eq!(
        parse_palette(json, &ColorPaletteStyles::Flat),
        Err(ParseError::Color {
            error: PaletteError {
                color: "b".to_string(),
                value: text("#12"),
                reason: ColorError::HexLength,
            },
        })
    );
}

#[test]
fn all_gives_one_named_palette_for_each_style() {
    assert_eq!(
        parse_palette(light_dark(), &ColorPaletteStyles::All),
        Ok(vec![
            palette(Some("light"), &[("x", rgb(255, 255, 255))]),
            palette(Some("dark"), &[("x", rgb(0, 0, 0))]),
        ])
    );
}

#[test]
fn flat_takes_the_styles_themselves_as_colours() {
    let got = parse_palette(light_dark(), &ColorPaletteStyles::Flat);
    let missing_red = |name: &str, hex: &str| {
        Err(ParseError::Color {
            error: PaletteError {
                color: name.to_string(),
                value: JsonValue::Object(object(vec![("x", text(hex))])),
                reason: ColorError::MissingChannel { channel: dipc::color::Channel::Red },
            },
        })
    };
    assert_eq!(got, missing_red("light", "#FFFFFF"));

    let channels = |r, g, b| JsonValue::Object(object(vec![("r", num(r)), ("g", num(g)), ("b", num(b))]));
    let json = object(vec![("light", channels(255, 255, 255)), ("dark", channels(0, 0, 0))]);
    assert_eq!(
        parse_palette(json, &ColorPaletteStyles::Flat),
        Ok(vec![palette(None, &[("light", rgb(255, 255, 255)), ("dark", rgb(0, 0, 0))])])
    );
}

#[test]
fn all_of_an_empty_document_is_no_palette() {
    assert_eq!(parse_palette(object(vec![]), &ColorPaletteStyles::All), Ok(vec![]));
}

#[test]
fn all_wants_every_style_to_be_an_object() {
    let json = object(vec![
        ("light", JsonValue::Object(object(vec![("x", text("#FFFFFF"))]))),
        ("dark", text("#000000")),
        ("worse", text("#12")),
    ]);
    assert_eq!(
        parse_palette(json, &ColorPaletteStyles::All),
        Err(ParseError::StyleNotObject { style: "dark".to_string() })
    );
}

#[test]
fn all_reports_the_style_of_a_malformed_colour() {
    let json = object(vec![
        ("light", JsonValue::Object(object(vec![("x", text("#FFFFFF"))]))),
        ("dark", JsonValue::Object(object(vec![("ok", text("#000")), ("y", array(1, 2, 256))]))),
    ]);
    assert_eq!(
        parse_palette(json, &ColorPaletteStyles::All),
        Err(ParseError::StyleColor {
            style: "dark".to_string(),
            error: PaletteError {
                color: "y".to_string(),
                value: array(1, 2, 256),
                reason: ColorError::ArrayRange { index: 2 },
            },
        })
    );
}

#[test]
fn selected_gives_the_palettes_in_the_order_asked_for() {
    assert_eq!(
        parse_palette(light_dark(), &selected(&["dark", "light"])),
        Ok(vec![
            palette(Some("dark"), &[("x", rgb(0, 0, 0))]),
            palette(Some("light"), &[("x", rgb(255, 255, 255))]),
        ])
    );
    assert_eq!(
        parse_palette(light_dark(), &selected(&["light"])),
        Ok(vec![palette(Some("light"), &[("x", rgb(255, 255, 255))])])
    );
}

#[test]
fn selected_with_no_name_is_no_palette() {
    assert_eq!(parse_palette(light_dark(), &selected(&[])), Ok(vec![]));
}

#[test]
fn selected_reports_an_unknown_style() {
    assert_eq!(
        parse_palette(light_dark(), &selected(&["light", "dim", "dark"])),
        Err(ParseError::StyleMissing { style: "dim".to_string() })
    );
}

#[test]
fn a_style_asked_for_twice_is_missing_the_second_time() {
    assert_eq!(
        parse_palette(light_dark(), &selected(&["light", "light"])),
        Err(ParseError::StyleMissing { style: "light".to_string() })
    );
    assert_eq!(
        parse_palette(light_dark(), &selected(&["dark", "light", "dark"])),
        Err(ParseError::StyleMissing { style: "dark".to_string() })
    );
}

#[test]
fn selected_takes_a_style_that_is_no_object_as_missing() {
    let json = object(vec![("light", text("#FFFFFF"))]);
    assert_eq!(
        parse_palette(json, &selected(&["light"])),
        Err(ParseError::StyleMissing { style: "light".to_string() })
    );
}

#[test]
fn selected_reports_the_style_of_a_malformed_colour() {
    let json = object(vec![
        ("light", JsonValue::Object(object(vec![("x", text("FFFFFF"))]))),
        ("dark", JsonValue::Object(object(vec![("x", text("#000000"))]))),
    ]);
    assert_eq!(
        parse_palette(json, &selected(&["dark", "light"])),
        Err(ParseError::StyleColor {
            style: "light".to_string(),
            error: PaletteError {
                color: "x".to_string(),
                value: text("FFFFFF"),
                reason: ColorError::HexPrefix,
            },
        })
    );
}

#[test]
fn colours_are_ordered_by_red_then_green_then_blue() {
    assert!(rgb_comes_before(rgb(0, 255, 255), rgb(1, 0, 0)));
    assert!(rgb_comes_before(rgb(1, 0, 255), rgb(1, 1, 0)));
    assert!(rgb_comes_before(rgb(1, 1, 0), rgb(1, 1, 1)));
    assert!(!rgb_comes_before(rgb(1, 1, 1), rgb(1, 1, 1)));
    assert!(!rgb_comes_before(rgb(1, 1, 2), rgb(1, 1, 1)));
    assert!(!rgb_comes_before(rgb(2, 0, 0), rgb(1, 255, 255)));
    for a in [rgb(0, 0, 0), rgb(3, 200, 7), rgb(3, 7, 200), rgb(255, 255, 255)] {
        for b in [rgb(0, 0, 1), rgb(3, 200, 7), rgb(200, 3, 7), rgb(255, 255, 254)] {
            assert_eq!(rgb_comes_before(a, b), [a.r, a.g, a.b] < [b.r, b.g, b.b]);
        }
    }
}

#[test]
fn two_names_for_one_colour_leave_one_entry() {
    let json = object(vec![("a", array(1, 2, 3)), ("b", array(1, 2, 3))]);
    let read = Palette::try_from(json).unwrap();
    let got = read.dedup();
    assert_eq!(got, palette(None, &[("a", rgb(1, 2, 3))]));
    assert_eq!(got.colors.len(), 1);
}

#[test]
fn dedup_sorts_and_keeps_the_first_name_of_each_colour() {
    let p = palette(
        Some("mix"),
        &[
            ("white", rgb(255, 255, 255)),
            ("black", rgb(0, 0, 0)),
            ("snow", rgb(255, 255, 255)),
            ("red", rgb(255, 0, 0)),
            ("ink", rgb(0, 0, 0)),
            ("blue", rgb(0, 0, 255)),
            ("green", rgb(0, 255, 0)),
            ("coal", rgb(0, 0, 0)),
        ],
    );
    assert_eq!(
        p.dedup(),
        palette(
            Some("mix"),
            &[
                ("black", rgb(0, 0, 0)),
                ("blue", rgb(0, 0, 255)),
                ("green", rgb(0, 255, 0)),
                ("red", rgb(255, 0, 0)),
                ("white", rgb(255, 255, 255)),
            ]
        )
    );
}

#[test]
fn dedup_agrees_with_a_stable_sort_and_dedup() {
    let mut entries: Vec<(String, Rgb)> = Vec::new();
    let mut seed: u32 = 12345;
    for i in 0..300 {
        seed = seed.wrapping_mul(1_103_515_245).wrapping_add(12345);
        let r = ((seed >> 16) % 4) as u8;
        let g = ((seed >> 20) % 3) as u8;
        let b = ((seed >> 24) % 5) as u8;
        entries.push((format!("c{i}"), rgb(r, g, b)));
    }
    let mut expected = entries.clone();
    expected.sort_by_key(|(_, c)| [c.r, c.g, c.b]);
    expected.dedup_by_key(|(_, c)| [c.r, c.g, c.b]);
    assert_eq!(deduplicated(entries), expected);
}

#[test]
fn dedup_of_nothing_is_nothing() {
    assert_eq!(deduplicated(Vec::new()), Vec::new());
    assert_eq!(palette(None, &[]).dedup(), palette(None, &[]));
}

#[test]
fn each_palette_is_deduplicated_on_its_own() {
    let palettes = vec![
        palette(Some("one"), &[("b", rgb(9, 9, 9)), ("a", rgb(1, 2, 3)), ("c", rgb(9, 9, 9))]),
        palette(Some("two"), &[("d", rgb(9, 9, 9)), ("e", rgb(1, 2, 3))]),
        palette(None, &[]),
    ];
    assert_eq!(
        dedup_palettes(palettes),
        vec![
            palette(Some("one"), &[("a", rgb(1, 2, 3)), ("b", rgb(9, 9, 9))]),
            palette(Some("two"), &[("e", rgb(1, 2, 3)), ("d", rgb(9, 9, 9))]),
            palette(None, &[]),
        ]
    );
    assert_eq!(dedup_palettes(Vec::new()), Vec::new());
}

#[test]
fn a_second_dedup_changes_nothing() {
    let p = palette(None, &[("b", rgb(9, 9, 9)), ("a", rgb(1, 2, 3)), ("c", rgb(9, 9, 9))]);
    let once = p.dedup();
    let twice = once.clone().dedup();
    assert_eq!(once, twice);
}

#[test]
fn clone_of_a_palette_is_equal() {
    let p = palette(Some("a b"), &[("x", rgb(1, 2, 3)), ("y", rgb(4, 5, 6))]);
    assert_eq!(p.clone(), p);
    let q = palette(None, &[]);
    assert_eq!(q.clone(), q);
}

#[test]
fn labs_follow_the_palettes_and_their_colours() {
    let palettes = vec![
        palette(Some("one"), &[("a", rgb(1, 2, 3)), ("b", rgb(200, 100, 50))]),
        palette(Some("none"), &[]),
        palette(Some("two"), &[("c", rgb(9, 9, 9))]),
    ];
    let labs: Vec<Lab> = palettes_to_labs(&palettes);
    let back: Vec<[u8; 3]> = labs.iter().map(|l| l.to_rgb()).collect();
    assert_eq!(back, vec![[1, 2, 3], [200, 100, 50], [9, 9, 9]]);
    let zero = 0.0f32.to_bits();
    assert_eq!(labs[1].delta(Lab::from([200, 100, 50]), CLIDEMethod::DE1976), zero);
    assert_eq!(palettes_to_labs(&[]).len(), 0);
}

#[test]
fn output_name_of_a_theme() {
    assert_eq!(output_file_name("photo", &ColorPalette::Nord, &[], CLIDEMethod::DE2000), "photo_nord.png");
}

#[test]
fn output_name_with_a_style() {
    let styles = [palette(Some("dark blue"), &[])];
    assert_eq!(
        output_file_name("photo", &ColorPalette::Nord, &styles, CLIDEMethod::DE2000),
        "photo_nord-dark_blue.png"
    );
}

#[test]
fn output_name_lists_the_styles_in_their_order() {
    let styles = [
        palette(Some("Snow Storm"), &[]),
        palette(None, &[("x", rgb(1, 2, 3))]),
        palette(Some("Polar  Night"), &[]),
        palette(Some("frost"), &[]),
    ];
    assert_eq!(
        output_file_name("image", &ColorPalette::Nord, &styles, CLIDEMethod::DE2000),
        "image_nord-Snow_Storm-Polar__Night-frost.png"
    );
}

#[test]
fn output_name_tells_a_method_that_is_not_the_default() {
    let styles = [palette(Some("mocha"), &[])];
    assert_eq!(
        output_file_name("a", &ColorPalette::Catppuccin, &styles, CLIDEMethod::DE1976),
        "a_catppuccin-mocha_DE1976.png"
    );
    assert_eq!(
        output_file_name("a", &ColorPalette::Catppuccin, &[], CLIDEMethod::DE1994G),
        "a_catppuccin_DE1994G.png"
    );
    assert_eq!(
        output_file_name("a", &ColorPalette::Catppuccin, &[], CLIDEMethod::DE1994T),
        "a_catppuccin_DE1994T.png"
    );
}

#[test]
fn output_name_of_a_custom_document() {
    let custom = ColorPalette::RawJSON { map: light_dark() };
    assert_eq!(output_file_name("photo", &custom, &[], CLIDEMethod::DE2000), "photo_custom.png");
}

#[test]
fn output_name_keeps_the_stem_as_it_is() {
    assert_eq!(
        output_file_name("my.photo v2", &ColorPalette::RosePine, &[], CLIDEMethod::DE2000),
        "my.photo v2_rose-pine.png"
    );
    assert_eq!(output_file_name("", &ColorPalette::Edge, &[], CLIDEMethod::DE2000), "_edge.png");
}
