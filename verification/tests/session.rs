//! Answers to messages, and the end of a session.
use aegis_host::config::{ChunkingConfig, Config, HostConfig, QuarantineConfig, RiskConfig};
use aegis_host::ipc::native_messaging::Outgoing;
use aegis_host::release::Released;
use aegis_host::risk::Decision;
use aegis_host::scanner::finding::{Finding, Severity};
use aegis_host::scanner::signature::TrustStatus;
use aegis_host::scanner::ForensicResult;
use aegis_host::session::{
    assess, delivered, dispatch, early_block, handle_url_check, is_issued_name, path_refused, pong,
    provenance_summary, session_failed, settle, undelivered, validate_quarantine_path,
    wants_whole_file, ClaimedPath, Incoming, Request, ResolvedPath, Settlement, WholeFile,
};
use aegis_host::watcher::WatchOutcome;

fn config() -> Config {
    Config {
        host: HostConfig { log_level: "info".to_string() },
        risk: RiskConfig { sandbox_threshold: 4_000, block_threshold: 8_500 },
        chunking: ChunkingConfig {
            chunk_size: 4096,
            ring_buffer_chunks: 4,
            per_chunk_timeout_secs: 2,
            total_transfer_timeout_secs: 10,
            max_download_bytes: 1_000_000,
            max_whole_file_scan_bytes: 100,
        },
        quarantine: QuarantineConfig { subdir: "q".to_string(), keep_flagged_samples: false },
    }
}

fn some(s: &str) -> Option<String> {
    Some(s.to_string())
}

fn message(kind: Option<&str>) -> Incoming {
    Incoming {
        kind: kind.map(|k| k.to_string()),
        session_id: some("s1"),
        quarantine_path: some("/q/f"),
        original_filename: None,
        url: None,
    }
}

/// Status, text and session of an answer.
fn verdict(m: Outgoing) -> (String, String, Option<String>) {
    match m {
        Outgoing::Verdict { status, verdict, session, .. } => (status, verdict, session),
        other => panic!("{other:?}"),
    }
}

fn answer(r: Request) -> (String, String, Option<String>) {
    match r {
        Request::Answer(m) => verdict(m),
        other => panic!("{other:?}"),
    }
}

#[test]
fn requests_are_told_apart() {
    assert!(matches!(dispatch(&message(Some("PING"))), Request::Ping));
    match dispatch(&message(Some("WATCH_BEGIN"))) {
        Request::Watch { session_id, quarantine_path, original_filename } => {
            assert_eq!(session_id, "s1");
            assert_eq!(quarantine_path, "/q/f");
            assert_eq!(original_filename, "download.bin");
        }
        other => panic!("{other:?}"),
    }
    assert_eq!(
        answer(dispatch(&message(None))),
        ("REJECTED_MALFORMED".to_string(), "Message missing 'type' field".to_string(), None)
    );
    assert_eq!(
        answer(dispatch(&message(Some("ping")))),
        ("REJECTED_MALFORMED".to_string(), "Unknown message type: ping".to_string(), some("s1"))
    );
    for kind in ["START_DOWNLOAD", "CHUNK"] {
        let (status, words, session) = answer(dispatch(&message(Some(kind))));
        assert_eq!(status, "REJECTED_MALFORMED");
        assert_eq!(
            words,
            "The chunk-streaming protocol was removed in Phase 2. Nothing is scanned or released \
             through it. Update the extension to send WATCH_BEGIN."
        );
        assert_eq!(session, some("s1"));
    }
}

#[test]
fn a_request_to_watch_needs_a_session_and_a_path() {
    let mut m = message(Some("WATCH_BEGIN"));
    m.session_id = some("");
    assert_eq!(
        answer(dispatch(&m)),
        ("REJECTED_MALFORMED".to_string(), "WATCH_BEGIN missing 'session_id'".to_string(), None)
    );
    let mut m = message(Some("WATCH_BEGIN"));
    m.quarantine_path = None;
    assert_eq!(
        answer(dispatch(&m)),
        (
            "REJECTED_MALFORMED".to_string(),
            "WATCH_BEGIN missing 'quarantine_path'".to_string(),
            some("s1")
        )
    );
}

#[test]
fn links_are_not_scored() {
    match handle_url_check(&some("https://example.com")) {
        Request::Answer(Outgoing::UrlScore { score, label, reason }) => {
            assert_eq!(score, 5_000);
            assert_eq!(label, "unscored");
            assert_eq!(reason, "URL scoring is not part of this build");
        }
        other => panic!("{other:?}"),
    }
    assert_eq!(
        answer(dispatch(&message(Some("CHECK_URL")))),
        ("REJECTED_MALFORMED".to_string(), "CHECK_URL missing 'url'".to_string(), None)
    );
}

#[test]
fn a_ping_is_answered_with_where_to_write() {
    match pong("0.1.0", "/bin/aegis-host", &config()) {
        Outgoing::Pong { version, exe, quarantine_subdir } => {
            assert_eq!(version, "0.1.0");
            assert_eq!(exe, "/bin/aegis-host");
            assert_eq!(quarantine_subdir, "q");
        }
        other => panic!("{other:?}"),
    }
}

#[test]
fn names_are_issued_under_a_uuid() {
    const ID: &str = "550e8400-e29b-41d4-a716-446655440000";
    for name in [
        ID.to_string(),
        format!("{ID}.pdf"),
        format!("{ID} (12).tar.gz"),
        format!("{ID} ().pdf"),
        format!("{{{ID}}}.pdf"),
        format!("urn:uuid:{ID}.pdf"),
        format!("URN:UUID:{}.pdf", ID.to_uppercase()),
        "550E8400E29B41D4A716446655440000.exe".to_string(),
    ] {
        assert!(is_issued_name(&name), "{name}");
    }
    for name in [
        "".to_string(),
        "hosts".to_string(),
        format!("x{ID}.pdf"),
        format!("{ID}x.pdf"),
        format!("{ID} (a).pdf"),
        format!("{ID}(1).pdf"),
        ID.replace('-', "_"),
        "550e8400-e29b-41d4-a716-44665544000g".to_string(),
        format!("{{{ID}.pdf"),
    ] {
        assert!(!is_issued_name(&name), "{name}");
    }
}

fn resolved(path: &str) -> ResolvedPath {
    ResolvedPath {
        shown: path.to_string(),
        components: path.split('/').map(|c| c.to_string()).collect(),
    }
}

fn claim(parent: &str, name: &str) -> ClaimedPath {
    ClaimedPath {
        claimed: format!("{parent}/{name}"),
        root_shown: "/d/q".to_string(),
        root: Ok(resolved("/d/q")),
        parent: Some(Ok(resolved(parent))),
        file_name: some(name),
    }
}

const NAME: &str = "550e8400-e29b-41d4-a716-446655440000.pdf";

#[test]
fn paths_must_lie_in_quarantine() {
    for parent in ["/d/q", "/d/q/sub"] {
        let accepted = validate_quarantine_path(&claim(parent, NAME)).unwrap();
        assert_eq!(accepted.directory, parent);
        assert_eq!(accepted.file_name, NAME);
    }
    assert_eq!(
        validate_quarantine_path(&claim("/d/q2", NAME)).unwrap_err(),
        format!(
            "REJECTED: extension supplied a path outside the quarantine root. \
             claimed=\"/d/q2/{NAME}\" resolved_parent=/d/q2 root=/d/q"
        )
    );
    assert!(validate_quarantine_path(&claim("/d", NAME)).is_err());
    assert_eq!(
        validate_quarantine_path(&claim("/d/q", "hosts")).unwrap_err(),
        "REJECTED: quarantine filename \"hosts\" does not start with a UUID issued by Aegis"
    );
}

#[test]
fn paths_that_cannot_be_resolved_are_refused() {
    let mut p = claim("/d/q", NAME);
    p.root = Err("gone".to_string());
    assert_eq!(
        validate_quarantine_path(&p).unwrap_err(),
        "quarantine root /d/q does not exist or cannot be resolved: gone"
    );
    let mut p = claim("/d/q", NAME);
    p.parent = None;
    assert_eq!(
        validate_quarantine_path(&p).unwrap_err(),
        "quarantine path has no parent directory"
    );
    let mut p = claim("/d/q", NAME);
    p.parent = Some(Err("gone".to_string()));
    assert_eq!(
        validate_quarantine_path(&p).unwrap_err(),
        format!(
            "quarantine path parent \"/d/q/{NAME}\" does not exist or cannot be resolved: gone"
        )
    );
    let mut p = claim("/d/q", NAME);
    p.file_name = None;
    assert_eq!(
        validate_quarantine_path(&p).unwrap_err(),
        "quarantine path has no filename component"
    );
    assert_eq!(
        verdict(path_refused("s1", "why")),
        ("REJECTED_MALFORMED".to_string(), "why".to_string(), some("s1"))
    );
}

fn outcome(risk_score: i64, bytes_scanned: u64) -> WatchOutcome {
    WatchOutcome {
        risk_score,
        descriptions: vec!["first".to_string()],
        findings: vec![],
        bytes_scanned,
        header_valid: true,
        extension_mismatch: false,
        dangerous_intent: true,
    }
}

fn scanned(risk_score: i64) -> ForensicResult {
    ForensicResult {
        risk_score,
        descriptions: vec!["first".to_string(), "second".to_string()],
        findings: vec![Finding::new(
            Severity::High,
            "t".to_string(),
            "d".to_string(),
            "w".to_string(),
            risk_score,
        )],
        ..Default::default()
    }
}

#[test]
fn both_scans_count() {
    let c = config().chunking;
    let r = assess(&outcome(3_000, 50), &WholeFile::Scanned(scanned(2_500)), &c);
    assert_eq!(r.risk_score, 5_500);
    assert_eq!(r.descriptions, vec!["first".to_string(), "second".to_string()]);
    assert_eq!(r.findings.len(), 1);
    assert!(r.header_valid && r.dangerous_intent && !r.extension_mismatch);
    let r = assess(&outcome(8_000, 50), &WholeFile::Scanned(scanned(8_000)), &c);
    assert_eq!(r.risk_score, 10_000);
}

fn found(title: &str, risk: i64) -> Finding {
    Finding::new(Severity::High, title.to_string(), "d".to_string(), "w".to_string(), risk)
}

#[test]
fn what_the_spans_showed_reaches_the_answer() {
    let c = config();
    let mut seen = outcome(9_000, 50);
    seen.findings = vec![found("small", 100), found("large", 5_000)];
    for whole in [
        WholeFile::TooLarge,
        WholeFile::Failed("x".to_string()),
        WholeFile::Scanned(scanned(2_500)),
    ] {
        let r = assess(&seen, &whole, &c.chunking);
        match settle("s1", &r, &whole, &c) {
            Settlement::Refuse(Decision::Block, Outgoing::Verdict { findings, .. }) => {
                for title in ["small", "large"] {
                    assert!(findings.iter().any(|f| f.title == title), "{title} in {findings:?}");
                }
            }
            other => panic!("{other:?}"),
        }
    }
    let r = assess(&seen, &WholeFile::TooLarge, &c.chunking);
    assert_eq!(r.findings[0].title, "large");
}

#[test]
fn a_gap_in_the_analysis_is_noted() {
    let c = config().chunking;
    assert!(wants_whole_file(&outcome(0, 100), &c));
    assert!(!wants_whole_file(&outcome(0, 101), &c));
    for (whole, note) in [
        (
            WholeFile::TooLarge,
            "[note] 101 bytes exceeds the 100 byte whole-file analysis limit; polyglot, entropy \
             and PE checks were skipped",
        ),
        (
            WholeFile::Failed("x".to_string()),
            "[warning] whole-file analysis could not run (x); verdict is based on streaming \
             checks alone",
        ),
        (
            WholeFile::Unreadable("y".to_string()),
            "[warning] file could not be re-read for whole-file analysis (y); verdict is based on \
             streaming checks alone",
        ),
    ] {
        let r = assess(&outcome(3_000, 101), &whole, &c);
        assert_eq!(r.risk_score, 3_000);
        assert_eq!(r.descriptions, vec!["first".to_string(), note.to_string()]);
    }
}

#[test]
fn a_file_is_settled_by_its_risk() {
    let c = config();
    let whole = WholeFile::Scanned(scanned(0));
    match settle("s1", &scanned(9_000), &whole, &c) {
        Settlement::Refuse(Decision::Block, m) => assert_eq!(
            verdict(m),
            (
                "BLOCKED".to_string(),
                "Blocked. Risk 0.90. Signals: first; second".to_string(),
                some("s1")
            )
        ),
        other => panic!("{other:?}"),
    }
    match settle("s1", &scanned(4_000), &whole, &c) {
        Settlement::Refuse(Decision::Inconclusive, m) => assert_eq!(
            verdict(m).1,
            "Not released. Aegis found signals it could not clear, but this is not a confirmed \
             detection \u{2014} risk 0.40, below the 0.85 threshold for one. Aegis does not run \
             downloads to settle the question, so the file is held rather than delivered. \
             Signals: first; second"
        ),
        other => panic!("{other:?}"),
    }
    assert!(matches!(settle("s1", &scanned(3_999), &whole, &c), Settlement::Deliver));
}

#[test]
fn a_file_that_was_not_analysed_is_not_delivered() {
    let c = config();
    for (whole, words) in [
        (WholeFile::Failed("x".to_string()), "x"),
        (WholeFile::Unreadable("y".to_string()), "y"),
    ] {
        for risk in [0, 3_000, 3_999] {
            let r = assess(&outcome(risk, 50), &whole, &c.chunking);
            match settle("s1", &r, &whole, &c) {
                Settlement::Withhold(m) => assert_eq!(
                    verdict(m),
                    (
                        "BLOCKED".to_string(),
                        format!(
                            "Not released: Aegis failed to analyse the complete file ({words}). \
                             This is a failure of Aegis, not a finding about the file."
                        ),
                        some("s1")
                    )
                ),
                other => panic!("{other:?}"),
            }
        }
        let r = assess(&outcome(9_000, 50), &whole, &c.chunking);
        assert!(matches!(settle("s1", &r, &whole, &c), Settlement::Refuse(Decision::Block, _)));
    }
    let r = assess(&outcome(3_000, 101), &WholeFile::TooLarge, &c.chunking);
    assert!(matches!(settle("s1", &r, &WholeFile::TooLarge, &c), Settlement::Deliver));
}

#[test]
fn a_delivery_says_where_and_by_whom() {
    let mut r = scanned(500);
    r.signature_status = Some(TrustStatus::Trusted { publisher: some("Example Corp") });
    let released = Released { final_path: "/d/a (1).exe".to_string(), renamed: true };
    let seen = outcome(0, 50);
    let whole = WholeFile::Scanned(scanned(0));
    match delivered("s1", &r, &seen, &whole, &config().chunking, &released) {
        Outgoing::Verdict { status, verdict, session, released_path, findings } => {
            assert_eq!(status, "COMPLETE");
            assert_eq!(
                verdict,
                "Released to Downloads. Risk 0.05. Signed by Example Corp. Renamed to avoid \
                 overwriting an existing file."
            );
            assert_eq!(session, some("s1"));
            assert_eq!(released_path, some("/d/a (1).exe"));
            assert_eq!(findings.len(), 1);
        }
        other => panic!("{other:?}"),
    }
    let released = Released { final_path: "/d/a".to_string(), renamed: false };
    assert_eq!(
        verdict(delivered("s1", &scanned(0), &seen, &whole, &config().chunking, &released)).1,
        "Released to Downloads. Risk 0.00."
    );
    let seen = outcome(3_000, 101);
    let r = assess(&seen, &WholeFile::TooLarge, &config().chunking);
    assert_eq!(
        verdict(delivered("s1", &r, &seen, &WholeFile::TooLarge, &config().chunking, &released)).1,
        "Released to Downloads. Risk 0.30. [note] 101 bytes exceeds the 100 byte whole-file \
         analysis limit; polyglot, entropy and PE checks were skipped"
    );
    assert_eq!(
        verdict(undelivered("s1", "disk full")),
        (
            "ERROR".to_string(),
            "File passed scanning but could not be released: disk full".to_string(),
            some("s1")
        )
    );
}

#[test]
fn provenance_is_told_where_there_is_any() {
    for (status, words) in [
        (None, ""),
        (Some(TrustStatus::Trusted { publisher: None }), " Carries a valid signature."),
        (
            Some(TrustStatus::TrustedByCatalog { catalog: None }),
            " Verified against a signed Windows catalogue.",
        ),
        (
            Some(TrustStatus::Unsigned),
            " Not digitally signed \u{2014} its origin cannot be verified.",
        ),
        (Some(TrustStatus::Unavailable("x".to_string())), ""),
        (Some(TrustStatus::Tampered), ""),
        (Some(TrustStatus::Expired { publisher: None }), ""),
        (Some(TrustStatus::Distrusted { publisher: None }), ""),
        (Some(TrustStatus::UntrustedRoot { publisher: None }), ""),
    ] {
        assert_eq!(provenance_summary(&status), words);
    }
}

#[test]
fn a_block_in_flight_is_answered_twice() {
    let found = scanned(9_000).findings;
    let (early, last) = early_block("s1", 9_000, "why", &found);
    assert!(matches!(early, Outgoing::EarlyBlock { risk_score: 9_000, .. }));
    match last {
        Outgoing::Verdict { status, verdict, released_path, findings, .. } => {
            assert_eq!(status, "BLOCKED");
            assert_eq!(verdict, "Blocked during download. why");
            assert!(released_path.is_none());
            assert_eq!(findings.len(), 1);
        }
        other => panic!("{other:?}"),
    }
}

#[test]
fn a_block_in_flight_shows_the_worst_first() {
    let mut low = found("low", 100);
    low.severity = Severity::Low;
    let (_, last) = early_block("s1", 9_000, "why", &[low, found("high", 6_000)]);
    match last {
        Outgoing::Verdict { findings, .. } => {
            assert_eq!(findings.len(), 2);
            assert_eq!(findings[0].title, "high");
        }
        other => panic!("{other:?}"),
    }
}

#[test]
fn a_signature_does_not_outweigh_the_spans() {
    let c = config().chunking;
    let mut whole = scanned(500);
    whole.signature_discount = 1_500;
    let mut seen = outcome(7_000, 50);
    assert_eq!(assess(&seen, &WholeFile::Scanned(whole.clone()), &c).risk_score, 7_500);
    seen.findings = vec![found("curl | bash", 7_000)];
    let r = assess(&seen, &WholeFile::Scanned(whole), &c);
    assert_eq!(r.risk_score, 9_000);
    assert_eq!(r.signature_discount, 0);
}

#[test]
fn a_session_that_broke_off_releases_nothing() {
    assert_eq!(
        verdict(session_failed("s1", "no pipe")),
        (
            "BLOCKED".to_string(),
            "Not released: scanning failed (no pipe)".to_string(),
            some("s1")
        )
    );
}
