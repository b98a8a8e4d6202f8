//! The quarantine directory, and safe file names.
use aegis_host::quarantine;
use aegis_host::quarantine::{sanitize_filename, Quarantine, SecureError};

#[test]
fn sanitize_strips_traversal() {
    for evil in [
        "../../../../Windows/System32/evil.exe",
        "..\\..\\Windows\\System32\\evil.exe",
        "/etc/passwd",
        "C:\\Windows\\System32\\drivers\\etc\\hosts",
    ] {
        let s = sanitize_filename(evil);
        assert!(!s.contains('/'), "slash survived in {s:?} (from {evil:?})");
        assert!(!s.contains('\\'), "backslash survived in {s:?} (from {evil:?})");
        assert!(!s.contains(".."), "dotdot survived in {s:?} (from {evil:?})");
    }
}

#[test]
fn sanitize_takes_basename_not_concatenation() {
    assert_eq!(sanitize_filename("dir/sub/report.pdf"), "report.pdf");
    assert_eq!(sanitize_filename("dir\\sub\\report.pdf"), "report.pdf");
}

#[test]
fn sanitize_preserves_legitimate_names() {
    assert_eq!(sanitize_filename("quarterly-report.pdf"), "quarterly-report.pdf");
    assert_eq!(sanitize_filename("archive..v2.zip"), "archive_v2.zip");
}

#[test]
fn sanitize_rejects_reserved_device_names() {
    for reserved in ["CON", "con.txt", "NUL.dat", "COM1.bin", "lpt9.exe"] {
        assert_eq!(
            sanitize_filename(reserved),
            "_reserved_name_",
            "reserved device name {reserved:?} was not neutralised"
        );
    }
}

#[test]
fn sanitize_strips_null_bytes_and_never_returns_empty() {
    assert!(!sanitize_filename("evil\0.exe").contains('\0'));
    assert!(!sanitize_filename("").is_empty());
    assert!(!sanitize_filename("///").is_empty());
}

#[test]
fn sanitize_bounds_length() {
    let long = "a".repeat(5000);
    assert!(sanitize_filename(&long).chars().count() <= 128);
}

#[test]
fn every_device_name_is_replaced_whatever_its_case_and_extension() {
    for name in quarantine::WINDOWS_RESERVED {
        assert_eq!(sanitize_filename(name), "_reserved_name_");
        assert_eq!(sanitize_filename(&name.to_lowercase()), "_reserved_name_");
        assert_eq!(sanitize_filename(&format!("{name}.tar.gz")), "_reserved_name_");
    }
    assert_eq!(sanitize_filename("CONSOLE.txt"), "CONSOLE.txt");
    assert_eq!(sanitize_filename("COM0"), "COM0");
}

#[test]
fn sanitizing_gives_exact_names() {
    assert_eq!(sanitize_filename(""), "_unnamed_");
    assert_eq!(sanitize_filename("a/b/"), "_unnamed_");
    assert_eq!(sanitize_filename("."), ".");
    assert_eq!(sanitize_filename(".."), "_");
    assert_eq!(sanitize_filename("..."), "_.");
    assert_eq!(sanitize_filename("...."), "__");
    assert_eq!(sanitize_filename("my file (1).txt"), "my_file__1_.txt");
    assert_eq!(sanitize_filename("r\u{e9}sum\u{e9}.pdf"), "r_sum_.pdf");
    assert_eq!(sanitize_filename("a\0b.txt"), "ab.txt");
    assert_eq!(sanitize_filename(&"b".repeat(130)), "b".repeat(128));
}

#[test]
fn sanitizing_twice_changes_nothing() {
    for name in ["../../x.exe", "NUL", "a..b...c", "", "con.txt", "\u{202E}gpj.exe"] {
        let once = sanitize_filename(name);
        assert_eq!(sanitize_filename(&once), once);
    }
}

#[test]
fn the_capitals_of_a_stem_decide() {
    assert_eq!(quarantine::neutralise("nul.txt", "NUL"), "_reserved_name_");
    assert_eq!(quarantine::neutralise("nul.txt", "NULL"), "nul.txt");
    assert_eq!(quarantine::neutralise("", ""), "_unnamed_");
}

#[test]
fn a_directory_is_secured_only_where_both_steps_succeed() {
    let q = Quarantine::secure("/q", Ok(()), Ok(())).expect("secured");
    assert_eq!(q.dir(), "/q");
    assert_eq!(q.clone().dir(), "/q");
    match Quarantine::secure("/q", Err("denied".to_string()), Ok(())) {
        Err(SecureError::Create(words)) => assert_eq!(words, "denied"),
        other => panic!("{other:?}"),
    }
    match Quarantine::secure("/q", Ok(()), Err("locked".to_string())) {
        Err(SecureError::Lock(words)) => assert_eq!(words, "locked"),
        other => panic!("{other:?}"),
    }
}

#[test]
fn the_failures_are_put_into_words() {
    assert_eq!(quarantine::create_failure("/q"), "Failed to create quarantine dir: /q");
    assert_eq!(quarantine::mode_failure("/q"), "Failed to set 0700 on quarantine dir: /q");
    assert_eq!(
        quarantine::inheritance_failure("C:\\q", " no such file \r\n"),
        "icacls /inheritance:r failed on C:\\q: no such file"
    );
    assert_eq!(
        quarantine::grant_failure("C:\\q", ".\\me", "denied\n"),
        "icacls /grant:r failed on C:\\q for .\\me: denied"
    );
}

#[test]
fn one_account_is_granted_everything() {
    assert_eq!(quarantine::acl_principal(&Some("HOME".to_string()), "me"), "HOME\\me");
    assert_eq!(quarantine::acl_principal(&None, "me"), ".\\me");
    assert_eq!(quarantine::acl_grant(".\\me"), ".\\me:(OI)(CI)F");
}
