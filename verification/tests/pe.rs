//! Windows programs: what their section table gives away.
use aegis_host::scanner::finding::Finding;
use aegis_host::scanner::pe;

/// A result with its risk as a fraction.
struct Seen {
    is_pe: bool,
    flagged: bool,
    flags: Vec<String>,
    findings: Vec<Finding>,
    risk: f32,
    section_count: usize,
}

fn analyse(data: &[u8]) -> Result<Seen, ()> {
    let r = pe::analyse(data);
    Ok(Seen {
        is_pe: r.is_pe,
        flagged: r.flagged,
        flags: r.flags,
        findings: r.findings,
        risk: r.risk as f32 / 10_000.0,
        section_count: r.section_count,
    })
}

fn build_pe(sections: &[(&str, u32, u32, u32, u32)], entry_point: u32) -> Vec<u8> {
    let pe_off = 0x80usize;
    let opt_size = 0xE0usize;
    let sec_table = pe_off + 4 + 20 + opt_size;
    let total = sec_table + sections.len() * 40 + 64;

    let mut d = vec![0u8; total];
    d[0..2].copy_from_slice(b"MZ");
    d[0x3C..0x40].copy_from_slice(&(pe_off as u32).to_le_bytes());
    d[pe_off..pe_off + 4].copy_from_slice(b"PE\0\0");
    d[pe_off + 6..pe_off + 8].copy_from_slice(&(sections.len() as u16).to_le_bytes());
    d[pe_off + 20..pe_off + 22].copy_from_slice(&(opt_size as u16).to_le_bytes());

    let opt = pe_off + 4 + 20;
    d[opt + 16..opt + 20].copy_from_slice(&entry_point.to_le_bytes());

    for (i, (name, vsize, vaddr, rsize, chars)) in sections.iter().enumerate() {
        let o = sec_table + i * 40;
        let nb = name.as_bytes();
        let n = nb.len().min(8);
        d[o..o + n].copy_from_slice(&nb[..n]);
        d[o + 8..o + 12].copy_from_slice(&vsize.to_le_bytes());
        d[o + 12..o + 16].copy_from_slice(&vaddr.to_le_bytes());
        d[o + 16..o + 20].copy_from_slice(&rsize.to_le_bytes());
        d[o + 36..o + 40].copy_from_slice(&chars.to_le_bytes());
    }
    d
}

const R_X: u32 = 0x6000_0020;
const R_W: u32 = 0xC000_0040;

#[test]
fn non_pe_input_is_reported_as_such() {
    for data in [b"\x89PNG\r\n\x1a\n".as_slice(), b"%PDF-1.4", b"hello", b""] {
        let res = analyse(data).unwrap();
        assert!(!res.is_pe, "non-PE treated as PE");
        assert!(!res.flagged);
    }
}

#[test]
fn ordinary_executable_is_not_flagged() {
    let pe = build_pe(
        &[
            (".text", 0x1000, 0x1000, 0x1000, R_X),
            (".rdata", 0x500, 0x2000, 0x500, 0x4000_0040),
            (".data", 0x400, 0x3000, 0x400, R_W),
        ],
        0x1500,
    );
    let res = analyse(&pe).unwrap();
    assert!(res.is_pe);
    assert_eq!(res.section_count, 3);
    assert!(!res.flagged, "clean PE flagged: {:?}", res.flags);
}

#[test]
fn writable_executable_section_is_flagged() {
    let pe = build_pe(&[(".text", 0x1000, 0x1000, 0x1000, R_X | 0x8000_0000)], 0x1500);
    let res = analyse(&pe).unwrap();
    assert!(res.flagged);
    assert!(res.risk >= 0.7, "risk was {}", res.risk);
    assert!(
        res.findings.iter().any(|f| f.title.contains("rewrite its own code")),
        "{:?}",
        res.findings
    );
}

#[test]
fn packed_section_size_mismatch_is_flagged() {
    let pe = build_pe(&[(".text", 0x10000, 0x1000, 0x400, R_X)], 0x1500);
    let res = analyse(&pe).unwrap();
    assert!(res.flagged);
    assert!(
        res.findings.iter().any(|f| f.why.contains("packers work")),
        "{:?}",
        res.findings
    );
}

#[test]
fn upx_packer_sections_are_identified() {
    let pe = build_pe(
        &[
            ("UPX0", 0x5000, 0x1000, 0, R_X),
            ("UPX1", 0x2000, 0x6000, 0x2000, R_X),
        ],
        0x6100,
    );
    let res = analyse(&pe).unwrap();
    assert!(res.flagged);
    assert!(
        res.flags.iter().any(|f| f.contains("UPX")),
        "packer not identified: {:?}",
        res.flags
    );
}

#[test]
fn entry_point_outside_all_sections_is_flagged() {
    let pe = build_pe(&[(".text", 0x1000, 0x1000, 0x1000, R_X)], 0x99999);
    let res = analyse(&pe).unwrap();
    assert!(res.flagged);
    assert!(
        res.findings
            .iter()
            .any(|f| f.title.contains("never declared")),
        "{:?}",
        res.findings
    );
}

#[test]
fn malformed_headers_never_panic() {
    let mut d = vec![0u8; 128];
    d[0..2].copy_from_slice(b"MZ");
    d[0x3C..0x40].copy_from_slice(&0xFFFF_FFFFu32.to_le_bytes());
    assert!(!analyse(&d).unwrap().is_pe);

    d[0x3C..0x40].copy_from_slice(&4u32.to_le_bytes());
    assert!(!analyse(&d).unwrap().is_pe);

    let full = build_pe(&[(".text", 0x1000, 0x1000, 0x1000, R_X)], 0x1500);
    for n in 0..full.len() {
        let _ = analyse(&full[..n]).unwrap();
    }
}

#[test]
fn absurd_section_count_is_rejected() {
    let mut d = build_pe(&[(".text", 0x1000, 0x1000, 0x1000, R_X)], 0x1500);
    d[0x80 + 6..0x80 + 8].copy_from_slice(&0xFFFFu16.to_le_bytes());
    let res = analyse(&d).unwrap();
    assert!(res.flagged);
    assert!(
        res.findings.iter().any(|f| f.title.contains("malformed")),
        "{:?}",
        res.findings
    );
}

#[test]
fn a_malformed_image_is_reported_and_is_none() {
    let full = build_pe(&[(".text", 0x1000, 0x1000, 0x1000, R_X)], 0x1500);
    let table = 0x80 + 24 + 0xE0;
    assert!(analyse(&full[..table + 40]).unwrap().is_pe);
    let cut = analyse(&full[..table + 39]).unwrap();
    assert!(!cut.is_pe);
    assert!(cut.findings.iter().any(|f| f.title.contains("truncated or malformed")));
    assert!(!analyse(&full[..0x80 + 43]).unwrap().is_pe);
    for count in [0u16, 97] {
        let mut d = full.clone();
        d[0x80 + 6..0x80 + 8].copy_from_slice(&count.to_le_bytes());
        let res = analyse(&d).unwrap();
        assert!(!res.is_pe);
        assert!(res.findings.iter().any(|f| f.title.contains("malformed")));
    }
}
