use dipc::json::{JsonNumber, JsonValue};
use dipc::tui::{
    is_image_extension, is_image_file, parse_color_value, truncate, FileEntry, PaletteEntry, Panel,
};
use std::path::PathBuf;

fn num(n: u64) -> JsonValue {
    JsonValue::Number(JsonNumber::Unsigned(n))
}

fn text(s: &str) -> JsonValue {
    JsonValue::String(s.to_string())
}

#[test]
fn the_files_panel_comes_first() {
    assert_eq!(Panel::default(), Panel::Files);
}

#[test]
fn the_focus_moves_between_two_panels() {
    assert_eq!(Panel::Files.next(), Panel::Palette);
    assert_eq!(Panel::Palette.next(), Panel::Files);
    assert_eq!(Panel::Files.next().next(), Panel::Files);
}

#[test]
fn entries_hold_what_they_are_given() {
    let entry = FileEntry {
        name: "a.png".to_string(),
        path: PathBuf::from("/tmp/a.png"),
        is_dir: false,
        is_image: is_image_file(&PathBuf::from("/tmp/a.png")),
    };
    assert!(entry.is_image);
    assert_eq!(entry.name, "a.png");
    let palette = PaletteEntry::Palette { name: "Nord", idx: 6 };
    let variation = PaletteEntry::Variation { name: "Frost".to_string(), idx: 6 };
    assert_ne!(palette, variation);
}

#[test]
fn image_extensions() {
    for ext in ["png", "jpg", "jpeg", "PNG", "JPG", "JPEG", "Png", "jPeG", "jpG"] {
        assert!(is_image_extension(ext));
    }
    for ext in ["", "gif", "pn", "pngg", "jpe", "jpegs", "bmp", "webp", "p\u{144}g", "png ", ".png"] {
        assert!(!is_image_extension(ext));
    }
}

#[test]
fn image_extensions_agree_with_lower_casing() {
    let letters = ['p', 'n', 'g', 'j', 'e', 'P', 'N', 'G', 'J', 'E', 'x', '\u{4b}', '\u{212a}'];
    for a in letters {
        for b in letters {
            for c in letters {
                let ext: String = [a, b, c].iter().collect();
                let expected = matches!(ext.to_lowercase().as_str(), "png" | "jpg" | "jpeg");
                assert_eq!(is_image_extension(&ext), expected);
            }
        }
    }
}

#[test]
fn image_files_are_known_by_their_extension() {
    for path in ["a.png", "/x/y/photo.JPG", "dir.d/pic.jpeg", "a.b.c.PnG", "..png.jpg"] {
        assert!(is_image_file(&PathBuf::from(path)));
    }
    for path in ["", "a", "a.gif", ".png", "png", "a.png/", "dir.png/file", "a.png.txt", "a.", ".."] {
        assert_eq!(is_image_file(&PathBuf::from(path)), path == "a.png/");
    }
}

#[test]
fn a_short_text_is_not_cut() {
    assert_eq!(truncate("", 0), "");
    assert_eq!(truncate("", 5), "");
    assert_eq!(truncate("hello", 5), "hello");
    assert_eq!(truncate("hello", 6), "hello");
    assert_eq!(truncate("\u{e9}t\u{e9}", 5), "\u{e9}t\u{e9}");
}

#[test]
fn a_long_text_ends_in_an_ellipsis() {
    assert_eq!(truncate("hello world", 5), "hell\u{2026}");
    assert_eq!(truncate("hello", 4), "hel\u{2026}");
    assert_eq!(truncate("hello", 1), "\u{2026}");
    assert_eq!(truncate("ab", 1), "\u{2026}");
    assert_eq!(truncate("\u{e9}t\u{e9}", 4), "\u{e9}t\u{2026}");
    assert_eq!(truncate("h\u{e9}llo", 5), "h\u{e9}l\u{2026}");
}

#[test]
fn the_preview_reads_six_digit_hex() {
    assert_eq!(parse_color_value(&text("#2E3440")), Some([46, 52, 64]));
    assert_eq!(parse_color_value(&text("#ffffff")), Some([255, 255, 255]));
    assert_eq!(parse_color_value(&text("#+1+2+f")), Some([1, 2, 15]));
    assert_eq!(parse_color_value(&text("#fff")), None);
    assert_eq!(parse_color_value(&text("2E3440")), None);
    assert_eq!(parse_color_value(&text("#2E344")), None);
    assert_eq!(parse_color_value(&text("#2E34400")), None);
    assert_eq!(parse_color_value(&text("#2E344g")), None);
    assert_eq!(parse_color_value(&text("#1+2233")), None);
    assert_eq!(parse_color_value(&text("#-12233")), None);
    assert_eq!(parse_color_value(&text("")), None);
}

#[test]
fn the_preview_reads_pairs_as_std_does() {
    let chars = ['0', '9', 'a', 'F', 'g', '+', '-', ' ', 'x'];
    for a in chars {
        for b in chars {
            let pair: String = [a, b].iter().collect();
            let expected = u8::from_str_radix(&pair, 16).ok().map(|v| [v, 0, 0]);
            assert_eq!(parse_color_value(&text(&format!("#{pair}0000"))), expected);
        }
    }
}

#[test]
fn the_preview_reads_an_array_modulo_256() {
    assert_eq!(parse_color_value(&JsonValue::Array(vec![num(1), num(2), num(3)])), Some([1, 2, 3]));
    assert_eq!(parse_color_value(&JsonValue::Array(vec![num(256), num(257), num(511)])), Some([0, 1, 255]));
    assert_eq!(parse_color_value(&JsonValue::Array(vec![num(1), num(2)])), None);
    assert_eq!(parse_color_value(&JsonValue::Array(vec![num(1), num(2), num(3), num(4)])), None);
    assert_eq!(parse_color_value(&JsonValue::Array(vec![num(1), text("2"), num(3)])), None);
    assert_eq!(
        parse_color_value(&JsonValue::Array(vec![
            num(1),
            JsonValue::Number(JsonNumber::Other("-2".to_string())),
            num(3)
        ])),
        None
    );
}

#[test]
fn the_preview_shows_nothing_for_other_values() {
    assert_eq!(parse_color_value(&JsonValue::Null), None);
    assert_eq!(parse_color_value(&JsonValue::Bool(true)), None);
    assert_eq!(parse_color_value(&num(3)), None);
    assert_eq!(
        parse_color_value(&JsonValue::Object(vec![
            ("r".to_string(), num(1)),
            ("g".to_string(), num(2)),
            ("b".to_string(), num(3))
        ])),
        None
    );
}
