//! Archives: what their central directory gives away.
use aegis_host::scanner::archive;
use aegis_host::scanner::archive::{bomb_finding, ZipEntry};
use aegis_host::scanner::finding::Finding;

/// A result with its risk as a fraction.
struct Seen {
    is_archive: bool,
    flagged: bool,
    flags: Vec<String>,
    findings: Vec<Finding>,
    risk: f32,
    entry_count: usize,
}

fn analyse(data: &[u8], name: &str) -> Result<Seen, ()> {
    let r = archive::analyse(data, name);
    Ok(Seen {
        is_archive: r.is_archive,
        flagged: r.flagged,
        flags: r.flags,
        findings: r.findings,
        risk: r.risk as f32 / 10_000.0,
        entry_count: r.entry_count,
    })
}

fn build_zip(entries: &[(&str, &[u8], bool, Option<u64>)]) -> Vec<u8> {
    let mut out: Vec<u8> = Vec::new();
    let mut central: Vec<u8> = Vec::new();

    for (name, content, encrypted, uncompressed_override) in entries {
        let local_offset = out.len() as u32;
        let flags: u16 = if *encrypted { 1 } else { 0 };
        let declared = uncompressed_override.unwrap_or(content.len() as u64);
        let declared32 = u32::try_from(declared).unwrap_or(u32::MAX);

        out.extend(b"PK\x03\x04");
        out.extend(20u16.to_le_bytes());
        out.extend(flags.to_le_bytes());
        out.extend(0u16.to_le_bytes());
        out.extend([0u8; 4]);
        out.extend(0u32.to_le_bytes());
        out.extend((content.len() as u32).to_le_bytes());
        out.extend(declared32.to_le_bytes());
        out.extend((name.len() as u16).to_le_bytes());
        out.extend(0u16.to_le_bytes());
        out.extend(name.as_bytes());
        out.extend(*content);

        central.extend(b"PK\x01\x02");
        central.extend(20u16.to_le_bytes());
        central.extend(20u16.to_le_bytes());
        central.extend(flags.to_le_bytes());
        central.extend(0u16.to_le_bytes());
        central.extend([0u8; 4]);
        central.extend(0u32.to_le_bytes());
        central.extend((content.len() as u32).to_le_bytes());
        central.extend(declared32.to_le_bytes());
        central.extend((name.len() as u16).to_le_bytes());
        central.extend(0u16.to_le_bytes());
        central.extend(0u16.to_le_bytes());
        central.extend(0u16.to_le_bytes());
        central.extend(0u16.to_le_bytes());
        central.extend(0u32.to_le_bytes());
        central.extend(local_offset.to_le_bytes());
        central.extend(name.as_bytes());
    }

    let cd_offset = out.len() as u32;
    let cd_size = central.len() as u32;
    out.extend(&central);

    out.extend(b"PK\x05\x06");
    out.extend([0u8; 4]);
    out.extend((entries.len() as u16).to_le_bytes());
    out.extend((entries.len() as u16).to_le_bytes());
    out.extend(cd_size.to_le_bytes());
    out.extend(cd_offset.to_le_bytes());
    out.extend(0u16.to_le_bytes());
    out
}

#[test]
fn ordinary_archive_is_not_flagged() {
    let zip = build_zip(&[
        ("docs/readme.txt", b"hello world, this is text", false, None),
        ("docs/notes.txt", b"more text here", false, None),
        ("images/logo.png", b"\x89PNG\r\n\x1a\nfake", false, None),
    ]);
    let res = analyse(&zip, "project.zip").unwrap();
    assert!(res.is_archive, "valid ZIP not recognised");
    assert_eq!(res.entry_count, 3);
    assert!(!res.flagged, "clean archive flagged: {:?}", res.flags);
    assert_eq!(res.risk, 0.0);
}

#[test]
fn what_was_packed_is_listed_in_order() {
    let long = format!("{}\u{e9}", "n".repeat(1022));
    let packed: [(&str, &[u8], bool, Option<u64>); 5] = [
        ("b/readme.txt", b"hello", false, None),
        ("\u{65e5}\u{672c}.exe", b"PK\x05\x06 is not the end", true, None),
        ("empty/", b"", false, None),
        ("", b"x", false, None),
        (&long, b"", true, None),
    ];
    let listed = archive::list_entries(&build_zip(&packed)).expect("an archive");
    assert_eq!(listed.len(), 5);
    for (entry, (name, content, encrypted, _)) in listed.iter().zip(packed.iter()) {
        assert_eq!(&entry.name, name);
        assert_eq!(entry.compressed_size, content.len() as u64);
        assert_eq!(entry.uncompressed_size, content.len() as u64);
        assert_eq!(entry.encrypted, *encrypted);
        assert_eq!(entry.is_directory, *name == "empty/");
    }
    assert!(archive::list_entries(&build_zip(&[])).expect("an archive").is_empty());
}

#[test]
fn entries_that_are_declared_and_not_there_are_not_read() {
    let mut zip = build_zip(&[("a.txt", b"x", false, None), ("b.exe", b"MZ", false, None)]);
    let end = zip.len() - 22;
    zip[end + 16..end + 20].copy_from_slice(&1u32.to_le_bytes());
    assert!(archive::list_entries(&zip).is_none());
    zip[end + 10..end + 12].copy_from_slice(&0u16.to_le_bytes());
    assert!(archive::list_entries(&zip).expect("an archive").is_empty());
}

#[test]
fn content_under_the_name_of_a_folder_is_a_file() {
    let zip = build_zip(&[("evil.exe/", b"MZ\x90\x00 x!", false, None), ("dir/", b"", false, None)]);
    let listed = archive::list_entries(&zip).expect("an archive");
    assert!(!listed[0].is_directory);
    assert!(listed[1].is_directory);
}

#[test]
fn non_archive_is_reported_as_such() {
    for data in [
        b"\x89PNG\r\n\x1a\n".as_slice(),
        b"%PDF-1.4",
        b"MZ\x90\x00",
        b"",
        b"PK\x03\x04",       // header only, no central directory
        &[0xFFu8; 500],
    ] {
        let res = analyse(data, "x.bin").unwrap();
        assert!(!res.is_archive, "non-archive parsed as archive");
        assert!(!res.flagged);
    }
}

#[test]
fn double_extension_inside_archive_is_caught() {
    let zip = build_zip(&[("invoice.pdf.exe", b"MZ\x90\x00payload", false, None)]);
    let res = analyse(&zip, "invoice.zip").unwrap();

    assert!(res.flagged, "disguised executable inside archive missed");
    assert!(res.risk >= 0.75, "risk too low: {}", res.risk);
    assert!(
        res.findings
            .iter()
            .any(|f| f.title.contains("disguised as a document")),
        "{:?}",
        res.findings
    );
}

#[test]
fn ordinary_installer_archive_stays_below_the_sandbox_threshold() {
    let mut entries: Vec<(&str, &[u8], bool, Option<u64>)> = vec![
        ("setup/setup.exe", b"MZ\x90\x00 installer", false, None),
        ("setup/data.cab", b"cabinet data here", false, None),
        ("setup/license.txt", b"license text", false, None),
        ("setup/readme.md", b"readme", false, None),
    ];
    entries.push(("setup/config.ini", b"[settings]", false, None));
    let res = analyse(&build_zip(&entries), "installer.zip").unwrap();
    assert!(
        res.risk < 0.4,
        "ordinary installer scored {} — that is a false positive on every software download: {:?}",
        res.risk,
        res.flags
    );
}

#[test]
fn lone_root_executable_scores_above_a_bundle() {
    let lone = analyse(&build_zip(&[("update.exe", b"MZ\x90\x00", false, None)]), "u.zip")
        .unwrap();
    let bundle = analyse(
        &build_zip(&[
            ("app/app.exe", b"MZ\x90\x00", false, None),
            ("app/lib.dll", b"MZ\x90\x00", false, None),
            ("app/readme.txt", b"text", false, None),
            ("app/data.bin", b"data", false, None),
        ]),
        "b.zip",
    )
    .unwrap();

    assert!(
        lone.risk > bundle.risk,
        "delivery shape ({}) should outrank a bundle ({})",
        lone.risk,
        bundle.risk
    );
}

#[test]
fn zip_slip_traversal_is_flagged() {
    for name in [
        "../../../Windows/System32/evil.dll",
        "..\\..\\startup\\run.bat",
        "/etc/cron.d/payload",
        "C:\\Windows\\Temp\\x.exe",
    ] {
        let res = analyse(&build_zip(&[(name, b"data", false, None)]), "a.zip").unwrap();
        assert!(res.flagged, "traversal {name:?} not flagged");
        assert!(
            res.findings.iter().any(|f| f.title.contains("outside the folder")),
            "traversal {name:?} produced wrong finding: {:?}",
            res.findings
        );
        assert!(res.risk >= 0.8);
    }
}

#[test]
fn ordinary_paths_are_not_traversal() {
    for name in [
        "src/main.rs",
        "a/b/c/d.txt",
        "..hidden/file.txt", // leading dots, but not a `..` component
        "file..txt",
        "docs/v1.2/readme.md",
    ] {
        let res = analyse(&build_zip(&[(name, b"data", false, None)]), "a.zip").unwrap();
        assert!(
            !res.findings.iter().any(|f| f.title.contains("outside the folder")),
            "{name:?} wrongly flagged as traversal"
        );
    }
}

#[test]
fn right_to_left_override_in_entry_name_is_flagged() {
    let name = "invoice\u{202E}fdp.exe";
    let res = analyse(&build_zip(&[(name, b"MZ", false, None)]), "a.zip").unwrap();
    assert!(res.flagged);
    assert!(res.risk >= 0.85, "risk was {}", res.risk);
    assert!(
        res.findings.iter().any(|f| f.title.contains("display incorrectly")),
        "{:?}",
        res.findings
    );
}

#[test]
fn encrypted_entries_are_reported() {
    let zip = build_zip(&[("secret.docx", b"encrypted bytes", true, None)]);
    let res = analyse(&zip, "secret.zip").unwrap();
    assert!(res.flagged);
    assert!(
        res.findings.iter().any(|f| f.title.contains("password-protected")),
        "{:?}",
        res.findings
    );
    assert!(res.risk >= 0.5 && res.risk < 0.85, "risk was {}", res.risk);
}

#[test]
fn decompression_bomb_is_identified_without_expanding_it() {
    let zip = build_zip(&[(
        "bomb.bin",
        &[0u8; 1024],
        false,
        Some(8 * 1024 * 1024 * 1024),
    )]);
    let res = analyse(&zip, "bomb.zip").unwrap();
    assert!(
        res.findings.iter().any(|f| f.title.contains("enormous size")),
        "bomb not identified: {:?}",
        res.findings
    );
}

#[test]
fn ordinary_large_archive_is_not_a_bomb() {
    let zip = build_zip(&[("video.mkv", &[0u8; 2048], false, Some(2048 * 50))]);
    let res = analyse(&zip, "movie.zip").unwrap();
    assert!(
        !res.findings.iter().any(|f| f.title.contains("enormous size")),
        "50:1 ratio wrongly called a bomb"
    );

    assert!(bomb_finding(1024 * 1024 * 1024, 4 * 1024 * 1024 * 1024, 10).is_none());
    assert!(bomb_finding(1024, 8 * 1024 * 1024 * 1024, 1).is_some());
}

#[test]
fn archive_wearing_a_document_extension_is_flagged() {
    let zip = build_zip(&[("run.exe", b"MZ\x90\x00", false, None)]);
    let res = analyse(&zip, "statement.pdf").unwrap();
    assert!(
        res.findings
            .iter()
            .any(|f| f.title.contains("claims to be a document")),
        "{:?}",
        res.findings
    );
    assert!(res.risk >= 0.7);
}

#[test]
fn shortcut_inside_archive_is_weighted_above_a_plain_executable() {
    let lnk = analyse(&build_zip(&[("invoice.lnk", b"L\0\0\0", false, None)]), "a.zip")
        .unwrap();
    let exe = analyse(&build_zip(&[("invoice.exe", b"MZ", false, None)]), "a.zip").unwrap();
    assert!(
        lnk.risk > exe.risk,
        "shortcut ({}) should outweigh a plain executable ({})",
        lnk.risk,
        exe.risk
    );
}

#[test]
fn hostile_archives_never_panic() {
    let full = build_zip(&[
        ("a.txt", b"content", false, None),
        ("dir/b.exe", b"MZ\x90\x00", false, None),
    ]);

    for n in 0..full.len() {
        let _ = analyse(&full[..n], "x.zip").unwrap();
    }

    let mut d = full.clone();
    let eocd = d.len() - 22;
    d[eocd + 10..eocd + 12].copy_from_slice(&0xFFFEu16.to_le_bytes());
    let _ = analyse(&d, "x.zip").unwrap();

    for bad in [0u32, 1, 0xFFFF_FFFE, 0x7FFF_FFFF] {
        let mut d = full.clone();
        let eocd = d.len() - 22;
        d[eocd + 16..eocd + 20].copy_from_slice(&bad.to_le_bytes());
        let _ = analyse(&d, "x.zip").unwrap();
    }

    let mut d = full.clone();
    if let Some(cd) = d.windows(4).position(|w| w == b"PK\x01\x02") {
        d[cd + 28..cd + 30].copy_from_slice(&0xFFFFu16.to_le_bytes());
        d[cd + 30..cd + 32].copy_from_slice(&0xFFFFu16.to_le_bytes());
    }
    let _ = analyse(&d, "x.zip").unwrap();

    let mut noise = vec![0x41u8; 4096];
    noise[100..104].copy_from_slice(b"PK\x05\x06");
    noise[500..504].copy_from_slice(b"PK\x01\x02");
    let _ = analyse(&noise, "x.zip").unwrap();
}

#[test]
fn entry_helpers_handle_odd_names() {
    let e = |name: &str| ZipEntry {
        name: name.to_string(),
        compressed_size: 0,
        uncompressed_size: 0,
        encrypted: false,
        is_directory: false,
    };
    assert_eq!(e("a/b/c.txt").file_name(), "c.txt");
    assert_eq!(e("c.txt").file_name(), "c.txt");
    assert_eq!(e("a\\b\\c.txt").file_name(), "c.txt");
    assert_eq!(e("noext").extension(), None);
    assert_eq!(e("a/b.TXT").extension().as_deref(), Some("txt"));
    assert!(e("root.exe").is_at_root());
    assert!(!e("dir/root.exe").is_at_root());
}
