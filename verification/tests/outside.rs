//! What the library takes from outside of it, seen through its own functions.
use aegis_host::scanner::archive;
use aegis_host::scanner::archive::ZipEntry;
use aegis_host::scanner::autoexec;
use aegis_host::scanner::autoexec::ShellLink;
use aegis_host::scanner::magic_bytes;
use aegis_host::scanner::structure;

fn entry(name: &str) -> ZipEntry {
    ZipEntry {
        name: name.to_string(),
        compressed_size: 1,
        uncompressed_size: 1,
        encrypted: false,
        is_directory: false,
    }
}

/// A central directory with one entry whose name is these bytes.
fn directory(name: &[u8]) -> Vec<u8> {
    let mut v = b"PK\x01\x02".to_vec();
    v.extend([0u8; 24]);
    v.extend((name.len() as u16).to_le_bytes());
    v.extend([0u8; 16]);
    v.extend(name);
    let size = v.len() as u32;
    v.extend(b"PK\x05\x06");
    v.extend([0u8; 4]);
    v.extend(1u16.to_le_bytes());
    v.extend(1u16.to_le_bytes());
    v.extend(size.to_le_bytes());
    v.extend(0u32.to_le_bytes());
    v.extend(0u16.to_le_bytes());
    v
}

#[test]
fn letters_beyond_ascii_are_lowered() {
    assert_eq!(entry("x.\u{c9}XE").extension().as_deref(), Some("\u{e9}xe"));
    assert_eq!(entry("x.EXE").extension().as_deref(), Some("exe"));
    assert!(!magic_bytes::scan_file(b"\x89PNG\r\n\x1a\n", "A.PNG").mismatch);
    assert!(structure::check_double_extension("A.PDF.EXE").is_some());
}

#[test]
fn bytes_that_are_no_text_are_replaced() {
    let entries = archive::list_entries(&directory(b"a\xFFb.txt")).expect("an archive");
    assert_eq!(entries[0].name, "a\u{FFFD}b.txt");
    let entries = archive::list_entries(&directory("\u{e9}/".as_bytes())).expect("an archive");
    assert_eq!(entries[0].name, "\u{e9}/");
    assert!(entries[0].is_directory);
}

#[test]
fn names_are_quoted_with_escapes() {
    let found = archive::examine(&[entry("../a\"b\n.txt")], "x.zip");
    assert_eq!(
        found[0].detail,
        "1 of 1 entries escape the extraction directory, including \"../a\\\"b\\n.txt\"."
    );
}

/// A shortcut with this command line, in UTF-16 or not.
fn link(arguments: &[u8], count: u16, unicode: bool) -> Vec<u8> {
    let mut d: Vec<u8> = Vec::new();
    d.extend(0x4Cu32.to_le_bytes());
    d.extend(autoexec::LINK_CLSID);
    let flags: u32 = (1 << 5) | if unicode { 1 << 7 } else { 0 };
    d.extend(flags.to_le_bytes());
    d.extend([0u8; 52]);
    d.extend(count.to_le_bytes());
    d.extend(arguments);
    d
}

#[test]
fn command_lines_are_decoded() {
    let wide: Vec<u8> = [0x41u16, 0xD83D, 0xDE00, 0xD800]
        .iter()
        .flat_map(|u| u.to_le_bytes())
        .collect();
    let parsed = autoexec::parse_lnk(&link(&wide, 4, true)).expect("a shortcut");
    assert_eq!(parsed.arguments.as_deref(), Some("A\u{1F600}\u{FFFD}"));
    let parsed = autoexec::parse_lnk(&link(b"A\xFF", 2, false)).expect("a shortcut");
    assert_eq!(parsed.arguments.as_deref(), Some("A\u{FFFD}"));
}

#[test]
fn white_space_around_settings_does_not_count() {
    let data = "[InternetShortcut]\r\n\u{a0} URL \u{2003}=\t file://x/y \r\n";
    let found = autoexec::url_shortcut_findings(data.as_bytes());
    assert_eq!(found.len(), 1);
    assert_eq!(found[0].detail, "Target: \"file://x/y\"");
}

#[test]
fn shown_texts_are_carried_into_the_findings() {
    let f = archive::escape_finding(2, 5, "\"x\"");
    assert_eq!(
        f.detail,
        "2 of 5 entries escape the extraction directory, including \"x\"."
    );
    assert_eq!(f.risk, 8_000);
    assert_eq!(
        archive::rigged_finding("S").detail,
        "Entry S contains a Unicode text-direction override character."
    );
    let f = archive::disguised_finding(2, "S", "pdf", "exe");
    assert_eq!(
        f.detail,
        "Entry S ends in .exe, but the .pdf before it is what draws the eye. 2 entries do this."
    );
    let row = archive::executable_entry("scr").expect("a screensaver executes");
    let f = archive::program_finding(1, 4, "S", row, false);
    assert_eq!(f.risk, 5_000);
    assert!(f.detail.starts_with("1 of 4 entries can execute. The most direct is S, a screensaver"));
    assert_eq!(archive::program_finding(1, 1, "S", row, true).risk, 7_000);
    assert!(archive::executable_entry("txt").is_none());
    assert!(archive::check_mask(1, "pdf").is_some());
    assert!(archive::check_mask(0, "pdf").is_none());
    assert!(archive::check_mask(1, "zip").is_none());
    assert!(structure::is_deceptive("pdf", "exe"));
    assert!(!structure::is_deceptive("exe", "pdf"));
    assert_eq!(
        structure::double_extension_finding("pdf", "exe").detail,
        "The name ends in .exe, but the .pdf before it is what draws the eye."
    );
}

#[test]
fn the_parts_of_a_shortcut_are_judged() {
    let f = autoexec::check_command_line("powershell -enc x", "S", "L").expect("a tool");
    assert!(f.detail.starts_with("Its command line invokes powershell"));
    assert!(f.detail.ends_with(": S"));
    assert_eq!(f.risk, 9_000);
    let f = autoexec::check_command_line("app.exe -enc x", "S", "L").expect("an evasion");
    assert_eq!(f.detail, "Command line: L");
    assert_eq!(f.risk, 7_500);
    assert!(autoexec::check_command_line("app.exe", "S", "L").is_none());
    assert!(autoexec::check_hidden_start(true, true, true).is_some());
    assert!(autoexec::check_hidden_start(true, true, false).is_none());
    assert!(autoexec::check_hidden_start(true, false, true).is_none());
    assert!(autoexec::check_icon_path("c:\\x\\shell32.dll", "S", true).is_some());
    assert!(autoexec::check_icon_path("c:\\x\\shell32.dll", "S", false).is_none());
    let empty = ShellLink {
        relative_path: None,
        working_dir: None,
        arguments: Some("  ".to_string()),
        icon_location: Some("shell32.dll".to_string()),
        starts_hidden: true,
    };
    assert!(autoexec::link_findings(&empty).is_empty());
}

#[test]
fn the_parts_of_an_internet_shortcut_are_judged() {
    assert_eq!(autoexec::check_target("javascript:x", "javascript:x", "S").unwrap().risk, 8_500);
    assert_eq!(autoexec::check_target("\\\\h\\s", "\\\\h\\s", "S").unwrap().risk, 7_000);
    assert!(autoexec::check_target("https://x", "https://x", "S").is_none());
    assert_eq!(
        autoexec::check_leak("iconfile", "\\\\h\\s", "S").unwrap().detail,
        "iconfile points at S"
    );
    assert!(autoexec::check_leak("url", "\\\\h\\s", "S").is_none());
    assert_eq!(autoexec::container_finding("S").detail, "It contains S.");
    assert_eq!(autoexec::check_autorun_text("[autorun]").risk, 4_500);
    assert_eq!(autoexec::check_autorun_text("shellexecute=x").risk, 7_000);
    let macros = [entry("word/VBAProject.bin")];
    assert_eq!(autoexec::check_macro_part(&macros, "docx").unwrap().risk, 7_500);
    assert_eq!(autoexec::check_macro_part(&macros, "docm").unwrap().risk, 4_500);
    assert_eq!(autoexec::check_macro_part(&macros, "zip").unwrap().risk, 5_500);
    assert!(autoexec::check_macro_part(&[entry("a.bin")], "docx").is_none());
}

#[test]
fn no_more_entries_are_read_than_the_limit() {
    let mut v = Vec::new();
    for _ in 0..20_000 {
        v.extend(b"PK\x01\x02");
        v.extend([0u8; 24]);
        v.extend(1u16.to_le_bytes());
        v.extend([0u8; 16]);
        v.push(b'a');
    }
    let size = v.len() as u32;
    v.extend(b"PK\x05\x06");
    v.extend([0u8; 4]);
    v.extend(20_000u16.to_le_bytes());
    v.extend(20_000u16.to_le_bytes());
    v.extend(size.to_le_bytes());
    v.extend(0u32.to_le_bytes());
    v.extend(0u16.to_le_bytes());
    assert_eq!(archive::list_entries(&v).expect("an archive").len(), 16_384);
}
