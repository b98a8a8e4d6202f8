//! Entropy: content that is more random than its format allows.
use aegis_host::scanner::entropy;
use aegis_host::scanner::entropy::Measurement;

/// Shannon entropy in bits per byte.
fn shannon(data: &[u8]) -> f32 {
    if data.is_empty() {
        return 0.0;
    }
    let counts = entropy::byte_counts(data);
    let len = data.len() as f32;
    let mut h = 0.0f32;
    for &c in counts.iter() {
        if c > 0 {
            let p = c as f32 / len;
            h -= p * p.log2();
        }
    }
    h
}

fn nanobits(h: f32) -> u64 {
    (f64::from(h) * 1e9).floor() as u64
}

fn measure(data: &[u8]) -> Measurement {
    Measurement {
        overall: nanobits(shannon(data)),
        windows: entropy::windows(data.len())
            .iter()
            .map(|w| nanobits(shannon(&data[w.0..w.1])))
            .collect(),
    }
}

/// A result in fractions and bits.
struct Seen {
    flagged: bool,
    flags: Vec<String>,
    risk: f32,
    max_window: f32,
    max_window_offset: usize,
}

fn analyse(data: &[u8], ext: &str) -> Result<Seen, ()> {
    let r = entropy::analyse(data, ext, &measure(data));
    Ok(Seen {
        flagged: r.flagged,
        flags: r.flags,
        risk: r.risk as f32 / 10_000.0,
        max_window: r.max_window as f32 / 1e9,
        max_window_offset: r.max_window_offset,
    })
}

fn pseudo_random(n: usize) -> Vec<u8> {
    let mut v = Vec::with_capacity(n);
    let mut state: u64 = 0x2545F491_4F6CDD1D;
    for _ in 0..n {
        state ^= state << 13;
        state ^= state >> 7;
        state ^= state << 17;
        v.push((state >> 24) as u8);
    }
    v
}

#[test]
fn entropy_bounds_are_sane() {
    assert_eq!(shannon(&[]), 0.0);
    assert!(shannon(&[0x41; 4096]) < 0.01);
    let uniform: Vec<u8> = (0..=255u8).cycle().take(4096).collect();
    assert!(shannon(&uniform) > 7.9, "got {}", shannon(&uniform));
}

#[test]
fn english_text_lands_in_the_expected_band() {
    let text = "The quick brown fox jumps over the lazy dog. ".repeat(200);
    let h = shannon(text.as_bytes());
    assert!((3.0..5.5).contains(&h), "English text entropy was {h}");
}

#[test]
fn encrypted_content_in_a_text_file_is_flagged() {
    let data = pseudo_random(8192);
    let res = analyse(&data, "txt").unwrap();
    assert!(res.flagged, "high-entropy .txt not flagged");
    assert!(res.risk >= 0.7, "risk was {}", res.risk);
}

#[test]
fn compressed_formats_are_not_flagged_for_high_entropy() {
    let mut data = b"PK\x03\x04".to_vec();
    data.extend(pseudo_random(8192));
    for ext in ["zip", "jpg", "png", "docx", "mp4"] {
        let res = analyse(&data, ext).unwrap();
        assert!(
            !res.flagged,
            ".{ext} flagged for expected high entropy: {:?}",
            res.flags
        );
    }
}

#[test]
fn plain_text_file_is_not_flagged() {
    let text = "function greet(name) { return `hello ${name}`; }\n".repeat(300);
    let res = analyse(text.as_bytes(), "js").unwrap();
    assert!(!res.flagged, "ordinary source flagged: {:?}", res.flags);
}

#[test]
fn localised_high_entropy_region_is_detected() {
    let mut data = b"MZ\x90\x00".to_vec();
    data.extend(b"ordinary program text and strings ".repeat(500));
    data.extend(pseudo_random(6000));
    data.extend(b"more ordinary trailing content ".repeat(500));

    let res = analyse(&data, "exe").unwrap();
    assert!(
        res.max_window > 7.5,
        "embedded random region not found, max window {}",
        res.max_window
    );
    assert!(res.flagged, "localised high-entropy region not flagged");
}

#[test]
fn empty_and_tiny_inputs_do_not_panic() {
    for data in [b"".as_slice(), b"a", b"ab", &[0u8; 100]] {
        let _ = analyse(data, "txt").unwrap();
    }
}

#[test]
fn window_offset_points_at_the_payload() {
    let mut data = vec![b'A'; 8192];
    data.extend(pseudo_random(8192));
    let res = analyse(&data, "bin").unwrap();
    assert!(
        res.max_window_offset >= 4096,
        "max-entropy window at {} should be in the second half",
        res.max_window_offset
    );
}
