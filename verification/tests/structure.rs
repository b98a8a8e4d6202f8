//! Structure: data behind the end of a format, formats inside others, names
//! with two extensions.
use aegis_host::scanner::finding::Finding;
use aegis_host::scanner::structure;

/// A result with its risk as a fraction.
struct Seen {
    flagged: bool,
    flags: Vec<String>,
    findings: Vec<Finding>,
    risk: f32,
    trailing_bytes: usize,
}

fn analyse(data: &[u8], name: &str) -> Result<Seen, ()> {
    let r = structure::analyse(data, name);
    Ok(Seen {
        flagged: r.flagged,
        flags: r.flags,
        findings: r.findings,
        risk: r.risk as f32 / 10_000.0,
        trailing_bytes: r.trailing_bytes,
    })
}

fn png(payload_after: &[u8]) -> Vec<u8> {
    let mut v = b"\x89PNG\r\n\x1a\n".to_vec();
    v.extend(std::iter::repeat_n(0xAAu8, 512));
    v.extend(b"IEND\xAE\x42\x60\x82"); // IEND + CRC
    v.extend_from_slice(payload_after);
    v
}

#[test]
fn clean_png_is_not_flagged() {
    let res = analyse(&png(b""), "photo.png").unwrap();
    assert!(!res.flagged, "clean PNG flagged: {:?}", res.flags);
    assert_eq!(res.trailing_bytes, 0);
}

#[test]
fn png_with_appended_zip_is_flagged() {
    let mut zip = b"PK\x03\x04".to_vec();
    zip.extend(std::iter::repeat_n(0x11u8, 200));
    let res = analyse(&png(&zip), "photo.png").unwrap();

    assert!(res.flagged, "appended ZIP not detected");
    assert!(res.risk >= 0.7, "risk too low: {}", res.risk);
    assert!(res.trailing_bytes > 0);
    assert!(
        res.findings
            .iter()
            .any(|f| f.title.contains("ZIP") && f.title.contains("Hidden")),
        "finding should name the concealed format: {:?}",
        res.findings
    );
}

#[test]
fn png_with_appended_executable_is_high_risk() {
    let mut pe = b"MZ\x90\x00".to_vec();
    pe.extend(std::iter::repeat_n(0u8, 300));
    let res = analyse(&png(&pe), "holiday.png").unwrap();
    assert!(res.risk >= 0.7, "appended PE should be high risk: {}", res.risk);
}

#[test]
fn small_trailing_padding_is_tolerated() {
    let res = analyse(&png(&[0u8; 8]), "photo.png").unwrap();
    assert!(!res.flagged, "8 padding bytes flagged: {:?}", res.flags);
}

#[test]
fn executable_embedded_in_jpeg_is_flagged() {
    let mut v = b"\xFF\xD8\xFF\xE0".to_vec();
    v.extend(std::iter::repeat_n(0x22u8, 100));
    v.extend(b"MZ\x90\x00");
    v.extend(std::iter::repeat_n(0u8, 100));
    v.extend(b"\xFF\xD9");
    let res = analyse(&v, "picture.jpg").unwrap();
    assert!(res.flagged, "embedded PE inside JPEG missed");
    assert!(res.risk >= 0.7);
}

#[test]
fn executable_inside_zip_is_not_flagged() {
    let mut v = b"PK\x03\x04".to_vec();
    v.extend(std::iter::repeat_n(0u8, 50));
    v.extend(b"MZ\x90\x00");
    v.extend(std::iter::repeat_n(0u8, 50));
    v.extend(b"PK\x05\x06");
    v.extend(std::iter::repeat_n(0u8, 20));
    let res = analyse(&v, "installer.zip").unwrap();
    assert!(
        !res.flagged,
        "an executable inside a ZIP is normal and must not flag: {:?}",
        res.flags
    );
}

#[test]
fn double_extension_is_flagged() {
    for name in ["invoice.pdf.exe", "photo.jpg.scr", "report.docx.vbs", "song.mp3.bat"] {
        let res = analyse(b"\x89PNG\r\n\x1a\n", name).unwrap();
        assert!(res.flagged, "double extension {name:?} not flagged");
        assert!(res.risk >= 0.65);
    }
}

#[test]
fn ordinary_names_are_not_double_extensions() {
    for name in ["archive.tar.gz", "notes.v2.pdf", "photo.png", "my.file.name.txt"] {
        let res = analyse(b"\x89PNG\r\n\x1a\n", name).unwrap();
        assert!(
            !res.flags.iter().any(|f| f.contains("Double extension")),
            "{name:?} wrongly flagged as a double extension"
        );
    }
}

#[test]
fn malformed_input_does_not_panic() {
    for data in [
        b"".as_slice(),
        b"\x89",
        b"\x89PNG",
        b"\x89PNG\r\n\x1a\n",
        b"PK\x03\x04",
        b"PK\x05\x06",
        b"%PDF",
        b"\xFF\xD8\xFF",
    ] {
        let _ = analyse(data, "x.bin").unwrap();
    }
}
