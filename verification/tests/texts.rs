//! Text and numbers, held against the standard library.
use aegis_host::numbers;
use aegis_host::text;
use std::path::Path;

const NAMES: [&str; 26] = [
    "", ".", "..", "...", "a", "a.b", "a.b.c", ".a", ".a.b", "a.", "a..b", "/", "a/", "a/.",
    "a/..", "a/./", "a/b.c", "/a/b/", "a/b/../c.d", "./x", "a//b", "a/.hidden", "\u{e9}.PDF",
    "x.TAR.GZ", "..b", "a/..b",
];

#[test]
fn paths_are_taken_apart_as_std_does() {
    for name in NAMES {
        let path = Path::new(name);
        let chars = text::chars_of(name);
        let file = text::file_name_of(&chars);
        assert_eq!(
            file.as_ref().map(|f| text::string_of(f)),
            path.file_name().map(|f| f.to_str().unwrap().to_string()),
            "file name of {name:?}"
        );
        if let Some(f) = file {
            assert_eq!(
                text::name_extension_of(&f),
                path.extension().map(|e| e.to_str().unwrap().to_string()),
                "extension of {name:?}"
            );
            assert_eq!(
                text::name_stem_of(&f),
                path.file_stem().unwrap().to_str().unwrap(),
                "stem of {name:?}"
            );
        }
        assert_eq!(
            text::claimed_extension_of(name),
            path.extension().and_then(|e| e.to_str()).unwrap_or("").to_lowercase(),
            "claimed extension of {name:?}"
        );
        assert_eq!(
            text::tail_extension_of(name),
            name.rsplit_once('.').map(|(_, e)| e.to_lowercase()).unwrap_or_default(),
            "tail of {name:?}"
        );
        let base = text::base_start(&chars);
        assert_eq!(
            text::substring(&chars, base, chars.len()),
            name.rsplit(['/', '\\']).next().unwrap(),
            "base of {name:?}"
        );
    }
}

#[test]
fn both_separators_part_a_path() {
    for (name, file, extension) in [
        ("photo.png\\", Some("photo.png"), "png"),
        ("a\\b.EXE", Some("b.EXE"), "exe"),
        ("a.pdf\\b", Some("b"), ""),
        ("a/b\\c.d", Some("c.d"), "d"),
        ("a\\b/c.d", Some("c.d"), "d"),
        ("a.b\\..", None, ""),
        ("\\", None, ""),
    ] {
        let found = text::file_name_of(&text::chars_of(name));
        assert_eq!(found.map(|f| text::string_of(&f)).as_deref(), file, "{name:?}");
        assert_eq!(text::claimed_extension_of(name), extension, "{name:?}");
    }
}

#[test]
fn white_space_is_what_std_says() {
    for code in (0..0x3100).chain([0xFEFF, 0x1F600]) {
        if let Some(c) = char::from_u32(code) {
            let trimmed = text::trim(&[c]);
            assert_eq!(trimmed.is_empty(), c.is_whitespace(), "{code:X}");
        }
    }
}

#[test]
fn texts_are_split_and_trimmed_as_std_does() {
    for s in [
        "", "\n", "a", "a\n", "a\r\nb", "\r\n\r\n", "a\n\nb\n", " \t x y \u{a0}\n", "\u{2003}",
        "a\rb\r", "=\n = ",
    ] {
        let chars = text::chars_of(s);
        let lines: Vec<String> = s.lines().map(|l| l.to_string()).collect();
        assert_eq!(text::lines_of(&chars), lines, "{s:?}");
        assert_eq!(text::string_of(&text::trim(&chars)), s.trim(), "{s:?}");
    }
}

#[test]
fn texts_are_searched_and_joined_as_std_does() {
    for (s, pat) in [("", ""), ("abc", ""), ("abc", "bc"), ("abc", "cd"), ("aab", "ab"), ("a", "aa")]
    {
        assert_eq!(text::contains(s, pat), s.contains(pat), "{s:?} {pat:?}");
        assert_eq!(text::starts_with(s, pat), s.starts_with(pat), "{s:?} {pat:?}");
        assert_eq!(text::same(s, pat), s == pat);
        assert_eq!(text::equal_ignoring_ascii_case(s, pat), s.eq_ignore_ascii_case(pat));
    }
    assert!(text::equal_ignoring_ascii_case("vbaProject.BIN", "VBAproject.bin"));
    assert!(!text::equal_ignoring_ascii_case("\u{c9}", "\u{e9}"));
    let parts = ["a".to_string(), "".to_string(), "b".to_string()];
    assert_eq!(text::join(&parts, "; "), parts.join("; "));
    assert_eq!(text::join(&[], "; "), "");
    assert_eq!(text::truncate("abcd", 4), "abcd");
    assert_eq!(text::truncate("abcde", 4), "abcd...");
    assert_eq!(text::truncate("\u{e9}\u{e9}\u{e9}", 2), "\u{e9}\u{e9}...");
}

#[test]
fn numbers_are_written_as_std_does() {
    for n in [0u64, 9, 10, 255, 4096, 10_000, u64::MAX] {
        assert_eq!(numbers::decimal_of(n), n.to_string());
        let mut s = String::new();
        numbers::push_hexadecimal(&mut s, n);
        assert_eq!(s, format!("{n:X}"));
    }
    let mut s = String::new();
    numbers::push_hexadecimal_padded(&mut s, 0x800B_0100, 8);
    assert_eq!(s, "800B0100");
}

#[test]
fn risks_are_written_with_two_places() {
    for risk in (0..=10_000).step_by(50) {
        let shown = numbers::risk_text_of(risk);
        assert_eq!(shown.len(), 4);
        let back: f32 = shown.parse().unwrap();
        assert!((back - risk as f32 / 10_000.0).abs() <= 0.005_001, "{risk} {shown}");
        if risk % 100 == 0 {
            assert_eq!(shown, format!("{:.2}", risk as f32 / 10_000.0));
        }
    }
    assert_eq!(numbers::risk_text_of(3_500), "0.35");
    assert_eq!(numbers::risk_text_of(10_000), "1.00");
}

#[test]
fn sizes_are_written_for_people() {
    assert_eq!(numbers::human_bytes(0), "0 B");
    assert_eq!(numbers::human_bytes(1023), "1023 B");
    assert_eq!(numbers::human_bytes(1024), "1.0 KB");
    assert_eq!(numbers::human_bytes(1536), "1.5 KB");
    assert_eq!(numbers::human_bytes(8 * 1024 * 1024 * 1024), "8.0 GB");
}
