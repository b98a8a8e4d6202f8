//! Messages in, answers out: the host without its pipes.
use aegis_host::config::{ChunkingConfig, Config, HostConfig, QuarantineConfig, RiskConfig};
use aegis_host::ipc::native_messaging;
use aegis_host::ipc::native_messaging::Outgoing;
use aegis_host::release::Released;
use aegis_host::scanner::entropy;
use aegis_host::scanner::entropy::Measurement;
use aegis_host::scanner::whole_file_scan;
use aegis_host::session;
use aegis_host::session::{ClaimedPath, Request, ResolvedPath, Settlement, WholeFile};
use aegis_host::watcher::{
    DownloadWatcher, ReadOutcome, ReadStep, ScanStep, WatchAction, WatchClock, WatchEvent, WatchTarget,
};
use serde_json::Value;

/// Shannon entropy in bits per byte.
fn shannon(data: &[u8]) -> f32 {
    if data.is_empty() {
        return 0.0;
    }
    let counts = entropy::byte_counts(data);
    let len = data.len() as f32;
    let mut h = 0.0f32;
    for &c in counts.iter() {
        if c > 0 {
            let p = c as f32 / len;
            h -= p * p.log2();
        }
    }
    h
}

fn nanobits(h: f32) -> u64 {
    (f64::from(h) * 1e9).floor() as u64
}

fn measure(data: &[u8]) -> Measurement {
    Measurement {
        overall: nanobits(shannon(data)),
        windows: entropy::windows(data.len())
            .iter()
            .map(|w| nanobits(shannon(&data[w.0..w.1])))
            .collect(),
    }
}

fn config() -> Config {
    Config {
        host: HostConfig { log_level: "debug".to_string() },
        risk: RiskConfig { sandbox_threshold: 4_000, block_threshold: 8_500 },
        chunking: ChunkingConfig {
            chunk_size: 4096,
            ring_buffer_chunks: 4,
            per_chunk_timeout_secs: 2,
            total_transfer_timeout_secs: 10,
            max_download_bytes: 8_589_934_592,
            max_whole_file_scan_bytes: 67_108_864,
        },
        quarantine: QuarantineConfig {
            subdir: "aegis_quarantine".to_string(),
            keep_flagged_samples: false,
        },
    }
}

/// Scans whatever of `content` has not been scanned yet.
fn pass(w: &mut DownloadWatcher, content: &[u8], cfg: &Config) -> ScanStep {
    let before = w.bytes_scanned();
    loop {
        let n = w.next_read(content.len() as u64, cfg.chunking.chunk_size);
        if n == 0 {
            break;
        }
        let from = w.bytes_scanned() as usize;
        assert_eq!(w.after_read(ReadOutcome::Bytes(&content[from..from + n])), ReadStep::Continue);
    }
    ScanStep::Scanned { fresh: w.bytes_scanned() - before, length: content.len() as u64 }
}

/// Takes a complete download through a session and gives the answers.
fn watch(session_id: &str, original_filename: &str, content: &[u8]) -> Vec<Outgoing> {
    let cfg = config();
    let target = WatchTarget::new("/home/u/Downloads/aegis_quarantine/file.bin");
    let mut w = DownloadWatcher::new(target, original_filename);
    let mut clock = WatchClock { started: 0, last_growth: 0 };
    let step = pass(&mut w, content, &cfg);
    let mut action = w.after_pass(&cfg, &mut clock, &step, true, 0);
    if matches!(action, WatchAction::Sweep) {
        let last = pass(&mut w, content, &cfg);
        action = w.after_sweep(&cfg, &mut clock, &last, 0);
    }
    let event = match action {
        WatchAction::Finish(event) => event,
        other => panic!("a complete download is not waited on: {other:?}"),
    };
    let mut answers = Vec::new();
    match event {
        WatchEvent::EarlyBlock { risk_score, reason, findings } => {
            let (early, last) = session::early_block(session_id, risk_score, &reason, &findings);
            answers.push(early);
            answers.push(last);
        }
        WatchEvent::Completed(outcome) => {
            let whole = if session::wants_whole_file(&outcome, &cfg.chunking) {
                WholeFile::Scanned(whole_file_scan(content, original_filename, &measure(content)))
            } else {
                WholeFile::TooLarge
            };
            let result = session::assess(&outcome, &whole, &cfg.chunking);
            match session::settle(session_id, &result, &whole, &cfg) {
                Settlement::Refuse(_, message) | Settlement::Withhold(message) => {
                    answers.push(message)
                }
                Settlement::Deliver => {
                    let released = Released {
                        final_path: format!("/home/u/Downloads/{original_filename}"),
                        renamed: false,
                    };
                    answers.push(session::delivered(
                        session_id,
                        &result,
                        &outcome,
                        &whole,
                        &cfg.chunking,
                        &released,
                    ));
                }
            }
        }
    }
    answers
}

/// Status and verdict of the last answer.
fn last_verdict(answers: &[Outgoing]) -> (String, String) {
    match answers.last() {
        Some(Outgoing::Verdict { status, verdict, .. }) => (status.clone(), verdict.clone()),
        other => panic!("the last answer is {other:?}"),
    }
}

fn object(members: &[(&str, Value)]) -> Value {
    let mut map = serde_json::Map::new();
    for (key, value) in members {
        map.insert(key.to_string(), value.clone());
    }
    Value::Object(map)
}

fn text(s: &str) -> Value {
    Value::from(s)
}

fn frame(value: &Value) -> Vec<u8> {
    native_messaging::write_message(value).expect("a short message")
}

fn components(path: &str) -> Vec<String> {
    path.split('/').filter(|c| !c.is_empty()).map(|c| c.to_string()).collect()
}

const ROOT: &str = "/home/u/Downloads/aegis_quarantine";

/// A path as the file system would resolve it, with every directory in place.
fn claimed(path: &str) -> ClaimedPath {
    let (parent, name) = match path.rsplit_once('/') {
        Some((dir, name)) => (dir, Some(name.to_string())),
        None => ("", Some(path.to_string())),
    };
    ClaimedPath {
        claimed: path.to_string(),
        root_shown: ROOT.to_string(),
        root: Ok(ResolvedPath { shown: ROOT.to_string(), components: components(ROOT) }),
        parent: Some(Ok(ResolvedPath {
            shown: parent.to_string(),
            components: components(parent),
        })),
        file_name: name,
    }
}

/// Answers every message of an input, as the host does. The files in
/// quarantine are given by their path.
fn run_host(input: &[u8], files: &[(&str, &[u8])]) -> Vec<Outgoing> {
    let mut answers = Vec::new();
    let mut rest = input;
    loop {
        let message = match native_messaging::read_frame(rest) {
            Ok(None) => return answers,
            Ok(Some(frame)) => {
                rest = &rest[frame.length..];
                session::incoming(&frame.value)
            }
            Err(e) => {
                answers.push(native_messaging::send_verdict("ERROR", &e.message(), &None));
                return answers;
            }
        };
        match session::dispatch(&message) {
            Request::Answer(answer) => answers.push(answer),
            Request::Ping => answers.push(session::pong("0.1.0", "aegis-host", &config())),
            Request::Watch { session_id, quarantine_path, original_filename } => {
                match session::validate_quarantine_path(&claimed(&quarantine_path)) {
                    Err(words) => answers.push(session::path_refused(&session_id, &words)),
                    Ok(_) => match files.iter().find(|f| f.0 == quarantine_path) {
                        Some((_, content)) => {
                            answers.extend(watch(&session_id, &original_filename, content))
                        }
                        None => answers.push(session::session_failed(&session_id, "no such file")),
                    },
                }
            }
        }
    }
}

fn verdicts(answers: &[Outgoing]) -> Vec<&Outgoing> {
    answers.iter().filter(|a| a.kind() == "VERDICT").collect()
}

fn status_of(answer: &Outgoing) -> &str {
    match answer {
        Outgoing::Verdict { status, .. } => status,
        _ => "",
    }
}

/// Sends one file through the host.
fn watch_file(uuid: &str, original_filename: &str, content: &[u8]) -> Vec<Outgoing> {
    let ext = original_filename.rsplit_once('.').map(|(_, e)| e).unwrap_or("bin");
    let path = format!("{ROOT}/{uuid}.{ext}");
    let message = object(&[
        ("type", text("WATCH_BEGIN")),
        ("session_id", text(uuid)),
        ("quarantine_path", text(&path)),
        ("original_filename", text(original_filename)),
    ]);
    run_host(&frame(&message), &[(&path, content)])
}

fn zip_with_entry(name: &str, content: &[u8]) -> Vec<u8> {
    let mut out: Vec<u8> = Vec::new();
    let sizes = |v: &mut Vec<u8>| {
        v.extend(0u32.to_le_bytes());
        v.extend((content.len() as u32).to_le_bytes());
        v.extend((content.len() as u32).to_le_bytes());
    };

    out.extend(b"PK\x03\x04");
    out.extend(20u16.to_le_bytes());
    out.extend(0u16.to_le_bytes());
    out.extend(0u16.to_le_bytes());
    out.extend([0u8; 4]);
    sizes(&mut out);
    out.extend((name.len() as u16).to_le_bytes());
    out.extend(0u16.to_le_bytes());
    out.extend(name.as_bytes());
    out.extend(content);

    let cd_offset = out.len() as u32;
    let mut central: Vec<u8> = Vec::new();
    central.extend(b"PK\x01\x02");
    central.extend(20u16.to_le_bytes());
    central.extend(20u16.to_le_bytes());
    central.extend(0u16.to_le_bytes());
    central.extend(0u16.to_le_bytes());
    central.extend([0u8; 4]);
    sizes(&mut central);
    central.extend((name.len() as u16).to_le_bytes());
    central.extend(0u16.to_le_bytes());
    central.extend(0u16.to_le_bytes());
    central.extend(0u16.to_le_bytes());
    central.extend(0u16.to_le_bytes());
    central.extend(0u32.to_le_bytes());
    central.extend(0u32.to_le_bytes());
    central.extend(name.as_bytes());

    let cd_size = central.len() as u32;
    out.extend(&central);

    out.extend(b"PK\x05\x06");
    out.extend([0u8; 4]);
    out.extend(1u16.to_le_bytes());
    out.extend(1u16.to_le_bytes());
    out.extend(cd_size.to_le_bytes());
    out.extend(cd_offset.to_le_bytes());
    out.extend(0u16.to_le_bytes());
    out
}

#[test]
fn benign_png_is_released() {
    let mut png = b"\x89PNG\r\n\x1a\n".to_vec();
    png.extend(std::iter::repeat_n(0u8, 1016));
    png.extend(b"IEND\xAE\x42\x60\x82");

    let answers =
        watch_file("550e8400-e29b-41d4-a716-446655440001", "aegis-test-benign.png", &png);

    let v = verdicts(&answers);
    assert!(!v.is_empty(), "no verdict returned");
    assert_eq!(
        status_of(v.last().unwrap()),
        "COMPLETE",
        "a benign PNG must be released; got {:?}",
        v.last().unwrap()
    );
}

#[test]
fn exe_masquerading_as_jpg_is_not_released() {
    let mut pe = b"MZ\x90\x00\x03\x00\x00\x00".to_vec();
    pe.extend(std::iter::repeat_n(0u8, 512));

    let answers = watch_file("550e8400-e29b-41d4-a716-446655440002", "holiday.jpg", &pe);

    let v = verdicts(&answers);
    assert!(!v.is_empty(), "no verdict returned");
    assert_ne!(
        status_of(v.last().unwrap()),
        "COMPLETE",
        "an MZ executable named .jpg must never be released; got {:?}",
        v.last().unwrap()
    );
}

#[test]
fn archive_hiding_a_disguised_executable_is_not_released() {
    let zip = zip_with_entry("invoice.pdf.exe", b"MZ\x90\x00 payload");

    let answers = watch_file("550e8400-e29b-41d4-a716-446655440003", "invoice.zip", &zip);

    let v = verdicts(&answers);
    assert!(!v.is_empty(), "no verdict returned");
    let last = v.last().unwrap();
    assert_ne!(
        status_of(last),
        "COMPLETE",
        "a ZIP containing invoice.pdf.exe must not be released; got {last:?}"
    );
    assert!(
        format!("{last:?}").contains("invoice.pdf.exe"),
        "the verdict must name the entry responsible: {last:?}"
    );
}

#[test]
fn ordinary_archive_is_still_released() {
    let zip = zip_with_entry("docs/readme.txt", b"just some ordinary text content");

    let answers =
        watch_file("550e8400-e29b-41d4-a716-446655440004", "aegis-test-project.zip", &zip);

    let v = verdicts(&answers);
    assert!(!v.is_empty(), "no verdict returned");
    assert_eq!(
        status_of(v.last().unwrap()),
        "COMPLETE",
        "an ordinary archive must be released; got {:?}",
        v.last().unwrap()
    );
}

#[test]
fn retired_chunk_protocol_is_refused() {
    for msg in [
        object(&[
            ("type", text("START_DOWNLOAD")),
            ("session_id", text("t-retired")),
            ("filename", text("x.bin")),
            ("content_length", Value::from(10)),
        ]),
        object(&[
            ("type", text("CHUNK")),
            ("session_id", text("t-retired")),
            ("seq", Value::from(0)),
            ("is_last", Value::from(true)),
            ("data", text("AAAA")),
        ]),
    ] {
        let answers = run_host(&frame(&msg), &[]);
        let v = verdicts(&answers);
        assert!(!v.is_empty(), "no verdict for retired protocol");
        assert_eq!(
            status_of(v[0]),
            "REJECTED_MALFORMED",
            "the retired chunk protocol must be refused explicitly; got {:?}",
            v[0]
        );
    }
}

#[test]
fn oversized_length_prefix_is_refused() {
    let mut input = 0xFFFF_FFFFu32.to_le_bytes().to_vec();
    input.extend_from_slice(b"{}");

    let answers = run_host(&input, &[]);
    assert!(!answers.is_empty(), "no answer to an oversized length prefix");
    let combined = format!("{answers:?}");
    assert!(
        combined.contains("exceeds maximum") || combined.contains("malformed"),
        "expected an explicit oversize rejection; {combined}"
    );
}

#[test]
fn malformed_frames_are_rejected_not_panicked() {
    for body in [
        object(&[("type", text("WATCH_BEGIN"))]),
        object(&[("type", text("WATCH_BEGIN")), ("session_id", text(""))]),
        object(&[
            ("type", text("WATCH_BEGIN")),
            ("session_id", text("x")),
            ("quarantine_path", text("")),
        ]),
        object(&[("type", Value::from(42))]),
        object(&[
            ("type", text("PING")),
            (
                "extra",
                Value::from(vec![
                    Value::from(1),
                    Value::from(2),
                    object(&[("deep", Value::Null)]),
                ]),
            ),
        ]),
        Value::from(vec![1, 2, 3]),
        text("bare string"),
    ] {
        let answers = run_host(&frame(&body), &[]);
        assert!(!answers.is_empty(), "nothing was said about {body:?}");
    }
}

#[test]
fn unknown_message_type_is_rejected() {
    let answers = run_host(&frame(&object(&[("type", text("TOTALLY_MADE_UP"))])), &[]);
    let v = verdicts(&answers);
    assert!(!v.is_empty(), "expected a rejection for an unknown type");
    assert_eq!(status_of(v[0]), "REJECTED_MALFORMED");
}

#[test]
fn quarantine_file_is_accepted_whatever_extension_chrome_picks() {
    for name in [
        "550e8400-e29b-41d4-a716-446655440000.pdf",
        "550e8400-e29b-41d4-a716-446655440000.aegispart",
        "550e8400-e29b-41d4-a716-446655440000.exe",
        "550e8400-e29b-41d4-a716-446655440000.tar.gz",
        "550e8400-e29b-41d4-a716-446655440000 (1).pdf",
    ] {
        let path = format!("{ROOT}/{name}");
        let sid = format!("t-{}", name.len());
        let mut input = frame(&object(&[
            ("type", text("WATCH_BEGIN")),
            ("session_id", text(&sid)),
            ("quarantine_path", text(&path)),
            ("original_filename", text("notes.pdf")),
        ]));
        input.extend(frame(&object(&[("type", text("PING"))])));

        let answers = run_host(&input, &[(&path, b"x")]);
        let rejected = answers.iter().any(|a| match a {
            Outgoing::Verdict { status, verdict, .. } => {
                status == "REJECTED_MALFORMED"
                    && (verdict.contains("UUID") || verdict.contains("aegispart"))
            }
            _ => false,
        });
        assert!(!rejected, "refused a file that the host issued, {name:?}: {answers:?}");
        assert_eq!(answers.last().map(|a| a.kind()), Some("PONG"));
    }
}

#[test]
fn path_outside_quarantine_root_is_still_rejected() {
    let input = frame(&object(&[
        ("type", text("WATCH_BEGIN")),
        ("session_id", text("t-escape")),
        ("quarantine_path", text("C:\\Windows\\System32\\drivers\\etc\\hosts")),
        ("original_filename", text("hosts")),
    ]));
    let answers = run_host(&input, &[]);
    let v = verdicts(&answers);
    assert!(!v.is_empty(), "expected a rejection");
    assert_eq!(
        status_of(v[0]),
        "REJECTED_MALFORMED",
        "a path outside the quarantine root must be refused: {:?}",
        v[0]
    );
}

#[test]
fn missing_type_field_is_rejected() {
    let answers = run_host(&frame(&object(&[("session_id", text("x"))])), &[]);
    let v = verdicts(&answers);
    assert!(!v.is_empty(), "expected a rejection for a type-less message");
    assert_eq!(status_of(v[0]), "REJECTED_MALFORMED");
}

#[test]
fn a_risky_span_is_not_forgotten() {
    let mut content = b"curl | bash".to_vec();
    content.extend(std::iter::repeat_n(b' ', 20_000));
    let answers = watch_file("550e8400-e29b-41d4-a716-446655440005", "notes.txt", &content);
    let (status, words) = last_verdict(&answers);
    assert_eq!(status, "BLOCKED");
    assert!(words.contains("curl | bash"), "{words}");
}
