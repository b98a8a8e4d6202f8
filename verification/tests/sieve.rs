//! The simple scanner.
use aegis_host::sieve::{
    answer, behavioral_threat, check_process_vitals, detect_dangerous_intent, intent_lines,
    perform_security_check, scan_file, xor_buffer,
};

#[test]
fn a_head_is_held_against_the_name() {
    assert_eq!(
        scan_file(b"MZ\x90\x00", "Photo.JPG"),
        vec![
            "[Scanner] Checking: Photo.JPG (Detected: exe, Claimed: jpg)".to_string(),
            "[Scanner] \u{1F6A8} ALERT: TROJAN DETECTED! Executable masquerading as .jpg"
                .to_string(),
        ]
    );
    assert_eq!(
        scan_file(b"MZ", "a.exe"),
        vec!["[Scanner] Chunk too small for identity verification.".to_string()]
    );
    assert_eq!(scan_file(b"%PDF-1.4", "a.pdf")[1], "[Scanner] \u{2705} File identity verified.");
    assert_eq!(
        scan_file(b"PK\x03\x04", "a.docx")[1],
        "[Scanner] Static analysis complete. No major mismatches."
    );
}

#[test]
fn kinds_and_extensions_are_matched() {
    assert_eq!(
        perform_security_check("zip", "jpg"),
        "[Scanner] \u{26A0}\u{FE0F} WARNING: Hidden Archive detected inside .jpg"
    );
    for ext in ["txt", "csv"] {
        assert_eq!(
            perform_security_check("unknown", ext),
            "[Scanner] \u{2139}\u{FE0F} Note: Non-text bytes found in a text-based format."
        );
    }
    assert_eq!(
        perform_security_check("zip", "xlsx"),
        "[Scanner] Static analysis complete. No major mismatches."
    );
}

#[test]
fn function_names_are_found_among_other_bytes() {
    let mut data = vec![0xFF, 0xFE];
    data.extend(b"xxInternetOpenAyyRegSetValue");
    let lines = detect_dangerous_intent(&data);
    assert_eq!(lines.len(), 4);
    assert_eq!(
        lines[0],
        "[Scanner] \u{1F6A9} CRITICAL: Found dangerous API reference: RegSetValue"
    );
    assert_eq!(lines[1], "[Scanner] Potential behavioral threat detected in current chunk.");
    assert!(lines[2].ends_with("InternetOpen"));
    assert!(intent_lines("nothing").is_empty());
}

#[test]
fn a_process_that_ends_early_is_suspicious() {
    assert_eq!(check_process_vitals(259), None);
    assert_eq!(check_process_vitals(0), Some(5));
    assert!(!behavioral_threat(&[259, 259, 259, 259, 259]));
    assert!(!behavioral_threat(&[259, 259, 259, 0, 0]));
    assert!(behavioral_threat(&[259, 259, 0, 0, 0]));
    assert!(!behavioral_threat(&[]));
}

#[test]
fn the_cipher_undoes_itself() {
    let mut data = vec![0x00, 0xAC, 0xFF];
    xor_buffer(&mut data);
    assert_eq!(data, vec![0xAC, 0x00, 0x53]);
    xor_buffer(&mut data);
    assert_eq!(data, vec![0x00, 0xAC, 0xFF]);
}

#[test]
fn the_answer_follows_the_scan() {
    let text = |p: (String, String)| format!("{}: {}", p.0, p.1);
    assert_eq!(
        text(answer(true, &None)),
        "BLOCKED: Critical: File identity mismatch or malicious intent detected."
    );
    assert_eq!(text(answer(false, &None)), "COMPLETE: File analyzed and verified clean.");
    assert_eq!(
        text(answer(false, &Some("Behavioral Threat Detected".to_string()))),
        "ERROR: Sandbox execution failed: Behavioral Threat Detected"
    );
}
