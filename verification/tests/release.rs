//! The release of a file: under a safe name, over nobody else's.
use aegis_host::config::ChunkingConfig;
use aegis_host::release::{
    candidate, copy_failure, is_stale, no_free_name, release, resolve_collision, CollisionStep,
};

/// Looks for a free name in a directory with these names.
fn free_name(name: &str, taken: &[&str]) -> Option<(String, bool)> {
    let mut n = 0;
    loop {
        let tried = candidate(name, n);
        match resolve_collision(name, n, taken.contains(&tried.as_str())) {
            CollisionStep::Take(file, renamed) => return Some((file, renamed)),
            CollisionStep::Next(next) => n = next,
            CollisionStep::Exhausted => return None,
        }
    }
}

#[test]
fn release_moves_file_and_keeps_name() {
    let name = release("/q/uuid.aegispart", true, "report.pdf").unwrap();
    assert_eq!(free_name(&name, &[]), Some(("report.pdf".to_string(), false)));
}

#[test]
fn release_resolves_collisions_instead_of_overwriting() {
    let name = release("/q/uuid.aegispart", true, "report.pdf").unwrap();
    assert_eq!(free_name(&name, &["report.pdf"]), Some(("report (1).pdf".to_string(), true)));
    assert_eq!(
        free_name(&name, &["report.pdf", "report (1).pdf"]),
        Some(("report (2).pdf".to_string(), true))
    );
}

#[test]
fn release_cannot_escape_downloads_dir() {
    let name = release("/q/uuid.aegispart", true, "../../../../evil.exe").unwrap();
    assert_eq!(name, "evil.exe");
    for n in 0..20 {
        let tried = candidate(&name, n);
        assert!(!tried.contains('/') && !tried.contains('\\') && !tried.contains(".."));
    }
}

#[test]
fn release_refuses_when_file_absent() {
    assert_eq!(
        release("/d/nope.aegispart", false, "a.bin").unwrap_err(),
        "cannot release /d/nope.aegispart: file is not in quarantine"
    );
}

#[test]
fn candidates_carry_the_number_before_the_extension() {
    assert_eq!(candidate("a.tar.gz", 3), "a.tar (3).gz");
    assert_eq!(candidate("noext", 12), "noext (12)");
    assert_eq!(candidate(".bashrc", 1), ".bashrc (1)");
    assert_eq!(candidate(".", 1), "download (1)");
    assert_eq!(candidate("x.", 1), "x (1).");
}

#[test]
fn the_search_for_a_name_ends() {
    let all: Vec<String> = (0..10_000).map(|n| candidate("a.b", n)).collect();
    let taken: Vec<&str> = all.iter().map(|s| s.as_str()).collect();
    assert_eq!(taken[9_999], "a (9999).b");
    assert!(matches!(resolve_collision("a.b", 9_998, true), CollisionStep::Next(9_999)));
    assert!(matches!(resolve_collision("a.b", 9_999, true), CollisionStep::Exhausted));
    assert_eq!(
        no_free_name("a.b", "/home/u/Downloads"),
        "could not find a free filename for \"a.b\" in /home/u/Downloads"
    );
}

#[test]
fn a_failed_copy_is_put_into_words() {
    assert_eq!(copy_failure("/q/x", "/d/y"), "copy /q/x -> /d/y during release");
}

#[test]
fn only_abandoned_files_are_stale() {
    let config = ChunkingConfig {
        chunk_size: 1,
        ring_buffer_chunks: 1,
        per_chunk_timeout_secs: 30,
        total_transfer_timeout_secs: 600,
        max_download_bytes: 1,
        max_whole_file_scan_bytes: 1,
    };
    assert!(!is_stale(600, &config));
    assert!(!is_stale(1_200, &config));
    assert!(is_stale(1_201, &config));
    let endless = ChunkingConfig { total_transfer_timeout_secs: u64::MAX, ..config };
    assert!(!is_stale(u64::MAX, &endless));
}
