//! Findings: severity, order and range.
use aegis_host::scanner::finding;
use aegis_host::scanner::finding::{sort_by_severity, Severity};

fn units(risk: f32) -> i64 {
    (risk * 10_000.0).round() as i64
}

fn severity_for(risk: f32) -> Severity {
    finding::severity_for(units(risk))
}

/// A finding whose risk is given as a fraction.
struct Finding;

impl Finding {
    fn new(severity: Severity, title: &str, detail: &str, why: &str, risk: f32) -> Seen {
        let f = finding::Finding::new(
            severity,
            title.to_string(),
            detail.to_string(),
            why.to_string(),
            units(risk),
        );
        Seen { risk: f.risk as f32 / 10_000.0, finding: f }
    }
}

struct Seen {
    risk: f32,
    finding: finding::Finding,
}

#[test]
fn severity_bands_are_ordered() {
    assert_eq!(severity_for(1.0), Severity::Critical);
    assert_eq!(severity_for(0.85), Severity::Critical);
    assert_eq!(severity_for(0.6), Severity::High);
    assert_eq!(severity_for(0.4), Severity::Medium);
    assert_eq!(severity_for(0.1), Severity::Low);
}

#[test]
fn worst_finding_sorts_first() {
    let mut f = vec![
        Finding::new(Severity::Low, "minor", "d", "w", 0.1),
        Finding::new(Severity::Critical, "worst", "d", "w", 1.0),
        Finding::new(Severity::Medium, "middling", "d", "w", 0.4),
    ];
    let mut f: Vec<finding::Finding> = f.drain(..).map(|s| s.finding).collect();
    sort_by_severity(&mut f);
    assert_eq!(f[0].title, "worst");
    assert_eq!(f[2].title, "minor");
}

#[test]
fn equal_severity_orders_by_risk() {
    let mut f = vec![
        Finding::new(Severity::High, "lower", "d", "w", 0.56),
        Finding::new(Severity::High, "higher", "d", "w", 0.8),
    ];
    let mut f: Vec<finding::Finding> = f.drain(..).map(|s| s.finding).collect();
    sort_by_severity(&mut f);
    assert_eq!(f[0].title, "higher");
}

#[test]
fn risk_is_clamped() {
    assert_eq!(Finding::new(Severity::Low, "t", "d", "w", 5.0).risk, 1.0);
    assert_eq!(Finding::new(Severity::Low, "t", "d", "w", -1.0).risk, 0.0);
}
