//! Signatures: what they say, and what credit they earn.
use aegis_host::scanner::finding;
use aegis_host::scanner::finding::{Finding, Severity};
use aegis_host::scanner::signature;
use aegis_host::scanner::signature::TrustStatus;

const MAX_TRUST_CREDIT: f32 = 0.25;

fn units(risk: f32) -> i64 {
    (risk * 10_000.0).round() as i64
}

fn apply_trust_credit(risk: f32, credit: f32, findings: &[Finding]) -> f32 {
    signature::apply_trust_credit(units(risk), units(credit), findings) as f32 / 10_000.0
}

/// A result with its risk and credit as fractions.
struct Seen {
    status: Option<TrustStatus>,
    flagged: bool,
    findings: Vec<Finding>,
    risk: f32,
    trust_credit: f32,
}

fn seen(r: signature::SignatureResult) -> Seen {
    Seen {
        status: r.status,
        flagged: r.flagged,
        findings: r.findings,
        risk: r.risk as f32 / 10_000.0,
        trust_credit: r.trust_credit as f32 / 10_000.0,
    }
}

fn build_result(status: TrustStatus, is_executable: bool) -> Seen {
    seen(signature::build_result(status, is_executable))
}

fn analyse(verified: Option<TrustStatus>, is_pe: bool, name: &str) -> Result<Seen, ()> {
    Ok(seen(signature::analyse(verified, is_pe, name)))
}

fn finding(sev: Severity, risk: f32) -> Finding {
    finding::Finding::new(sev, "t".to_string(), "d".to_string(), "w".to_string(), units(risk))
}

#[test]
fn trust_credit_settles_an_ambiguous_file() {
    let findings = [finding(Severity::Medium, 0.45), finding(Severity::Low, 0.2)];
    let adjusted = apply_trust_credit(0.45, MAX_TRUST_CREDIT, &findings);
    assert!(
        adjusted < 0.4,
        "a signed file with only medium signals should fall below the sandbox threshold, \
         got {adjusted}"
    );
}

#[test]
fn trust_credit_cannot_argue_away_a_serious_finding() {
    for sev in [Severity::Critical, Severity::High] {
        let findings = [finding(sev, 0.7)];
        assert_eq!(
            apply_trust_credit(0.7, MAX_TRUST_CREDIT, &findings),
            0.7,
            "a valid signature must not reduce risk when a {sev:?} finding is present - \
             otherwise signing malware buys a discount off the detection"
        );
    }
}

#[test]
fn trust_credit_is_capped_however_large_the_input() {
    let findings = [finding(Severity::Low, 0.1)];
    let adjusted = apply_trust_credit(0.5, 10.0, &findings);
    assert_eq!(adjusted, 0.5 - MAX_TRUST_CREDIT);
}

#[test]
fn trust_credit_never_produces_a_negative_score() {
    assert_eq!(apply_trust_credit(0.1, MAX_TRUST_CREDIT, &[]), 0.0);
}

#[test]
fn no_credit_leaves_the_score_untouched() {
    let findings = [finding(Severity::Medium, 0.4)];
    assert_eq!(apply_trust_credit(0.4, 0.0, &findings), 0.4);
}

#[test]
fn tampering_is_critical_and_earns_no_credit() {
    let res = build_result(TrustStatus::Tampered, true);
    assert!(res.flagged);
    assert_eq!(res.trust_credit, 0.0);
    assert!(res.risk >= 0.8);
    assert_eq!(res.findings[0].severity, Severity::Critical);
}

#[test]
fn explicit_distrust_outranks_being_unsigned() {
    let distrusted = build_result(
        TrustStatus::Distrusted {
            publisher: Some("Dodgy Ltd".into()),
        },
        true,
    );
    let unsigned = build_result(TrustStatus::Unsigned, true);
    assert!(distrusted.risk > unsigned.risk);
    assert!(distrusted.findings[0].detail.contains("Dodgy Ltd"));
}

#[test]
fn unsigned_is_only_a_weak_signal() {
    let res = build_result(TrustStatus::Unsigned, true);
    assert!(res.risk < 0.3, "unsigned scored {}", res.risk);
    assert_eq!(res.findings[0].severity, Severity::Low);
}

#[test]
fn expiry_is_treated_as_routine_not_as_tampering() {
    let expired = build_result(
        TrustStatus::Expired {
            publisher: Some("Old Corp".into()),
        },
        true,
    );
    let tampered = build_result(TrustStatus::Tampered, true);
    assert!(expired.risk < 0.2);
    assert!(tampered.risk > expired.risk * 4.0);
    assert!(expired.findings[0].why.contains("common and usually harmless"));
}

#[test]
fn a_valid_signature_is_reported_without_being_an_anomaly() {
    let res = build_result(
        TrustStatus::Trusted {
            publisher: Some("Example Corp".into()),
        },
        true,
    );
    assert!(!res.flagged, "a good signature must not read as a problem");
    assert_eq!(res.risk, 0.0);
    assert_eq!(res.trust_credit, MAX_TRUST_CREDIT);
    assert!(res.findings[0].title.contains("Example Corp"));
}

#[test]
fn unavailable_contributes_nothing_but_is_still_reported() {
    let res = build_result(TrustStatus::Unavailable("no provider".into()), true);
    assert_eq!(res.risk, 0.0);
    assert_eq!(res.trust_credit, 0.0);
    assert!(!res.flagged);
    assert!(!res.findings.is_empty(), "a skipped check must not be silent");
}

#[test]
fn unsignable_formats_are_not_checked_at_all() {
    for name in ["photo.png", "notes.txt", "report.pdf", "music.mp3"] {
        let res = analyse(None, false, name).unwrap();
        assert!(res.status.is_none(), "{name} should not be checked");
        assert!(res.findings.is_empty());
        assert_eq!(res.risk, 0.0);
    }
}

#[test]
fn signable_formats_without_a_path_report_that_they_were_not_checked() {
    let res = analyse(None, true, "setup.exe").unwrap();
    assert!(matches!(res.status, Some(TrustStatus::Unavailable(_))));
    assert_eq!(res.risk, 0.0);
    assert_eq!(res.trust_credit, 0.0);
}
