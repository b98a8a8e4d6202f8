//! The analyses of a file taken together.
use aegis_host::scanner;
use aegis_host::scanner::entropy;
use aegis_host::scanner::entropy::Measurement;

/// Shannon entropy in bits per byte.
fn shannon(data: &[u8]) -> f32 {
    if data.is_empty() {
        return 0.0;
    }
    let counts = entropy::byte_counts(data);
    let len = data.len() as f32;
    let mut h = 0.0f32;
    for &c in counts.iter() {
        if c > 0 {
            let p = c as f32 / len;
            h -= p * p.log2();
        }
    }
    h
}

fn nanobits(h: f32) -> u64 {
    (f64::from(h) * 1e9).floor() as u64
}

fn measure(data: &[u8]) -> Measurement {
    Measurement {
        overall: nanobits(shannon(data)),
        windows: entropy::windows(data.len())
            .iter()
            .map(|w| nanobits(shannon(&data[w.0..w.1])))
            .collect(),
    }
}

/// A result with its risk as a fraction.
struct Seen {
    structural_anomaly: bool,
    entropy_anomaly: bool,
    pe_anomaly: bool,
    risk_score: f32,
    descriptions: Vec<String>,
}

fn whole_file_scan(data: &[u8], name: &str) -> Result<Seen, ()> {
    let r = scanner::whole_file_scan(data, name, &measure(data));
    Ok(Seen {
        structural_anomaly: r.structural_anomaly,
        entropy_anomaly: r.entropy_anomaly,
        pe_anomaly: r.pe_anomaly,
        risk_score: r.risk_score as f32 / 10_000.0,
        descriptions: r.descriptions,
    })
}

fn png_with(payload: &[u8]) -> Vec<u8> {
    let mut v = b"\x89PNG\r\n\x1a\n".to_vec();
    v.extend(std::iter::repeat_n(0xAAu8, 512));
    v.extend(b"IEND\xAE\x42\x60\x82");
    v.extend_from_slice(payload);
    v
}

#[test]
fn benign_png_scores_zero_across_all_analyses() {
    let res = whole_file_scan(&png_with(b""), "photo.png").unwrap();
    assert_eq!(res.risk_score, 0.0, "signals: {:?}", res.descriptions);
    assert!(!res.structural_anomaly && !res.entropy_anomaly && !res.pe_anomaly);
}

#[test]
fn polyglot_png_is_caught_by_the_whole_file_pass() {
    let mut pe = b"MZ\x90\x00".to_vec();
    pe.extend(std::iter::repeat_n(0u8, 400));
    let res = whole_file_scan(&png_with(&pe), "holiday.png").unwrap();

    assert!(res.structural_anomaly, "polyglot missed: {:?}", res.descriptions);
    assert!(res.risk_score >= 0.7, "risk {}", res.risk_score);
}

#[test]
fn overlapping_signals_do_not_compound_within_whole_file_scan() {
    let mut data = b"MZ\x90\x00".to_vec();
    data.extend(std::iter::repeat_n(0u8, 60));
    let mut state: u64 = 12345;
    for _ in 0..20000 {
        state ^= state << 13;
        state ^= state >> 7;
        state ^= state << 17;
        data.push((state >> 24) as u8);
    }
    let res = whole_file_scan(&data, "setup.exe").unwrap();
    assert!(
        res.risk_score <= 1.0,
        "risk must stay bounded, got {}",
        res.risk_score
    );
}

#[test]
fn streaming_and_whole_file_findings_combine() {
    let mut pe = b"MZ\x90\x00\x03\x00\x00\x00".to_vec();
    pe.extend(std::iter::repeat_n(0u8, 512));

    let streaming = scanner::deep_forensic_scan(&pe, "invoice.pdf", true, None);
    let whole = scanner::whole_file_scan(&pe, "invoice.pdf", &measure(&pe));
    let merged = scanner::combine(&streaming, &whole);

    assert!(merged.risk_score >= streaming.risk_score);
    assert!(merged.risk_score as f32 / 10_000.0 <= 1.0);
    assert!(merged.extension_mismatch, "type mismatch should survive the merge");
}

#[test]
fn whole_file_scan_never_panics_on_hostile_input() {
    for data in [
        b"".as_slice(),
        b"MZ",
        b"\x89PNG",
        b"PK\x03\x04",
        &[0xFFu8; 1000],
        &[0u8; 1000],
    ] {
        let _ = whole_file_scan(data, "x.bin").unwrap();
        let _ = whole_file_scan(data, "").unwrap();
    }
}

#[test]
fn names_of_functions_in_a_text_are_not_an_attack() {
    let r = scanner::deep_forensic_scan(b"RegSetValue RegCreateKey", "notes.txt", true, None);
    assert!(r.dangerous_intent);
    assert!(!r.extension_mismatch);
    assert!(r.risk_score < 4_000, "risk {}", r.risk_score);
    let disguised = scanner::deep_forensic_scan(
        b"MZ\x90\x00 RegSetValue RegCreateKey",
        "notes.pdf",
        true,
        None,
    );
    assert!(disguised.extension_mismatch);
    assert!(disguised.risk_score > r.risk_score);
}
