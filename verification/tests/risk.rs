//! The decision on a file.
use aegis_host::config;
use aegis_host::risk;
use aegis_host::risk::{decide, Decision};
use aegis_host::scanner::ForensicResult;

fn units(risk: f32) -> i64 {
    (risk * 10_000.0).round() as i64
}

fn aggregate_risk(scores: &[f32]) -> f32 {
    let scores: Vec<i64> = scores.iter().map(|s| units(*s)).collect();
    risk::aggregate_risk(&scores) as f32 / 10_000.0
}

fn cfg() -> config::RiskConfig {
    config::RiskConfig { sandbox_threshold: units(0.4), block_threshold: units(0.85) }
}

fn at(score: f32) -> ForensicResult {
    ForensicResult {
        risk_score: units(score),
        ..Default::default()
    }
}

#[test]
fn thresholds_are_inclusive_and_ordered() {
    assert_eq!(decide(&at(0.0), &cfg()), Decision::Release);
    assert_eq!(decide(&at(0.39), &cfg()), Decision::Release);
    assert_eq!(decide(&at(0.4), &cfg()), Decision::Inconclusive);
    assert_eq!(decide(&at(0.84), &cfg()), Decision::Inconclusive);
    assert_eq!(decide(&at(0.85), &cfg()), Decision::Block);
    assert_eq!(decide(&at(1.0), &cfg()), Decision::Block);
}

#[test]
fn only_release_delivers_the_file() {
    for score in [0.0, 0.2, 0.4, 0.6, 0.85, 1.0, 2.0, -1.0] {
        let d = decide(&at(score), &cfg());
        let delivers = d == Decision::Release;
        assert_eq!(
            delivers,
            score < 0.4,
            "score {score} produced {d:?}, which delivers={delivers}"
        );
    }
}

#[test]
fn aggregate_is_empty_safe_and_bounded() {
    assert_eq!(aggregate_risk(&[]), 0.0);
    assert!(aggregate_risk(&[1.0, 1.0, 1.0, 1.0, 1.0]) <= 1.0);
    assert_eq!(aggregate_risk(&[0.5]), 0.5);
    assert_eq!(aggregate_risk(&[0.2, 0.7, 0.1]), 0.7);
}

#[test]
fn repeated_weak_signals_do_not_accumulate() {
    let one = aggregate_risk(&[0.35]);
    let many = aggregate_risk(&[0.35; 200]);
    assert_eq!(
        one, many,
        "the same score repeated across 200 chunks produced {many} instead \
         of {one} — repetition is not new evidence"
    );
    assert!(
        many < 0.4,
        "capped string matches must stay below sandbox_threshold however \
         many chunks they appear in, got {many}"
    );
}
