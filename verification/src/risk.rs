//! The decision: does a file reach the user's Downloads folder?
use crate::config;
use crate::config::{ChunkingConfig, RiskConfig};
use crate::numbers::RISK_ONE;
use crate::scanner;
use crate::scanner::intent;
use crate::scanner::ForensicResult;
use vstd::prelude::*;

verus! {

/// Final download decision.
#[derive(Debug, Clone, Copy, PartialEq, Eq, Structural)]
pub enum Decision {
    /// Nothing of concern found: release to the Downloads folder.
    Release,
    /// Signals present, but below the threshold for a confirmed detection. The
    /// file is not released, and it is not called malicious either.
    Inconclusive,
    /// At or above the block threshold: a confirmed detection.
    Block,
}

/// The word for a decision.
pub open spec fn decision_text(d: Decision) -> Seq<char> {
    match d {
        Decision::Release => "RELEASE"@,
        Decision::Inconclusive => "INCONCLUSIVE"@,
        Decision::Block => "BLOCK"@,
    }
}

impl Decision {
    /// The word for this decision.
    pub fn text(&self) -> (r: &'static str)
        ensures
            r@ == decision_text(*self),
    {
        match self {
            Decision::Release => "RELEASE",
            Decision::Inconclusive => "INCONCLUSIVE",
            Decision::Block => "BLOCK",
        }
    }
}

/// The decision for a score. A score on a threshold takes the more cautious
/// side.
pub open spec fn decision(score: int, config: RiskConfig) -> Decision {
    if score >= config.block_threshold {
        Decision::Block
    } else if score >= config.sandbox_threshold {
        Decision::Inconclusive
    } else {
        Decision::Release
    }
}

/// Decides on a scanned file. Only `Release` delivers it.
pub fn decide(result: &ForensicResult, config: &RiskConfig) -> (r: Decision)
    ensures
        r == decision(result.risk_score as int, *config),
{
    let score: i64 = result.risk_score;
    if score >= config.block_threshold {
        Decision::Block
    } else if score >= config.sandbox_threshold {
        Decision::Inconclusive
    } else {
        Decision::Release
    }
}

/// The greatest of some scores, at least zero.
pub open spec fn greatest(scores: Seq<i64>) -> int
    decreases scores.len(),
{
    if scores.len() == 0 {
        0
    } else {
        let before = greatest(scores.drop_last());
        if before < scores.last() {
            scores.last() as int
        } else {
            before
        }
    }
}

/// The score of a whole streaming pass: the greatest of the scores of its
/// spans, and no more than certainty.
pub open spec fn aggregate(scores: Seq<i64>) -> int {
    if greatest(scores) > RISK_ONE {
        RISK_ONE as int
    } else {
        greatest(scores)
    }
}

/// Collapses the scores of the spans into one.
pub fn aggregate_risk(chunk_scores: &[i64]) -> (r: i64)
    ensures
        r == aggregate(chunk_scores@),
{
    let mut out: i64 = 0;
    let mut i: usize = 0;
    while i < chunk_scores.len()
        invariant
            i <= chunk_scores@.len(),
            out == greatest(chunk_scores@.take(i as int)),
        decreases chunk_scores@.len() - i,
    {
        assert(chunk_scores@.take(i + 1).drop_last() =~= chunk_scores@.take(i as int));
        if chunk_scores[i] > out {
            out = chunk_scores[i];
        }
        i += 1;
    }
    assert(chunk_scores@.take(chunk_scores@.len() as int) =~= chunk_scores@);
    if out > RISK_ONE {
        RISK_ONE
    } else {
        out
    }
}

// ---------------------------------------------------------------------------
// Laws
// ---------------------------------------------------------------------------

/// Exactly the scores below both thresholds deliver the file.
pub proof fn law_only_release_delivers_the_file(score: int, config: RiskConfig)
    ensures
        decision(score, config) == Decision::Release <==> score < config.sandbox_threshold && score
            < config.block_threshold,
{
}

/// A score on a threshold takes the more cautious side.
pub proof fn law_thresholds_are_inclusive(config: RiskConfig)
    requires
        config.sandbox_threshold < config.block_threshold,
    ensures
        decision(config.sandbox_threshold as int, config) == Decision::Inconclusive,
        decision(config.block_threshold as int, config) == Decision::Block,
{
}

/// How cautious a decision is.
pub open spec fn caution(d: Decision) -> int {
    match d {
        Decision::Release => 0,
        Decision::Inconclusive => 1,
        Decision::Block => 2,
    }
}

/// More risk never makes the decision less cautious.
pub proof fn law_more_risk_is_never_treated_more_lightly(less: int, more: int, config: RiskConfig)
    requires
        less <= more,
    ensures
        caution(decision(less, config)) <= caution(decision(more, config)),
{
}

proof fn lemma_greatest_bounds(scores: Seq<i64>, i: int)
    requires
        0 <= i < scores.len(),
    ensures
        scores[i] <= greatest(scores),
    decreases scores.len(),
{
    if i < scores.len() - 1 {
        lemma_greatest_bounds(scores.drop_last(), i);
    }
}

proof fn lemma_greatest_not_negative(scores: Seq<i64>)
    ensures
        greatest(scores) >= 0,
    decreases scores.len(),
{
    if scores.len() > 0 {
        lemma_greatest_not_negative(scores.drop_last());
    }
}

proof fn lemma_greatest_limit(scores: Seq<i64>, limit: int)
    requires
        0 <= limit,
        forall|i: int| 0 <= i < scores.len() ==> #[trigger] scores[i] <= limit,
    ensures
        greatest(scores) <= limit,
    decreases scores.len(),
{
    if scores.len() > 0 {
        let shorter = scores.drop_last();
        assert(forall|i: int| 0 <= i < shorter.len() ==> shorter[i] == scores[i]);
        lemma_greatest_limit(shorter, limit);
    }
}

/// The score of a pass is a risk.
pub proof fn law_aggregate_is_bounded(scores: Seq<i64>)
    ensures
        0 <= aggregate(scores) <= RISK_ONE,
{
    lemma_greatest_not_negative(scores);
}

/// Repetition is not new evidence: spans that score no more than `limit` do
/// not score more together, however many there are.
pub proof fn law_repeated_signals_do_not_accumulate(scores: Seq<i64>, limit: int)
    requires
        0 <= limit,
        forall|i: int| 0 <= i < scores.len() ==> #[trigger] scores[i] <= limit,
    ensures
        aggregate(scores) <= limit,
{
    lemma_greatest_limit(scores, limit);
}

/// No span is forgotten: a pass scores at least what each of its spans scores,
/// up to certainty.
pub proof fn law_every_span_counts(scores: Seq<i64>, i: int)
    requires
        0 <= i < scores.len(),
        scores[i] <= RISK_ONE,
    ensures
        scores[i] <= aggregate(scores),
{
    lemma_greatest_bounds(scores, i);
}

/// Further spans never lower the score of a pass.
pub proof fn law_more_spans_never_lower_the_score(scores: Seq<i64>, more: i64)
    ensures
        aggregate(scores) <= aggregate(scores.push(more)),
{
    assert(scores.push(more).drop_last() =~= scores);
}

/// Names of ordinary functions, tools and paths alone never hold a file back,
/// in however many spans they appear and whether its type is known or not, as
/// long as the thresholds lie above their ceiling.
pub proof fn law_indicative_patterns_alone_do_not_hold_a_file(
    spans: Seq<Seq<u8>>,
    contexts: Seq<Option<Seq<u8>>>,
    filename: Seq<char>,
    scores: Seq<i64>,
    config: RiskConfig,
)
    requires
        config.sandbox_threshold > intent::MAX_INDICATIVE_RISK,
        config.block_threshold > intent::MAX_INDICATIVE_RISK,
        scores.len() == spans.len() == contexts.len(),
        forall|i: int|
            0 <= i < spans.len() ==> #[trigger] scores[i] == scanner::span_scan(
                spans[i],
                filename,
                i == 0,
                contexts[i],
            ).risk_score,
        spans.len() > 0 ==> !scanner::span_scan(
            spans[0],
            filename,
            true,
            contexts[0],
        ).extension_mismatch,
        forall|i: int, k: int|
            0 <= i < spans.len() && 0 <= k < intent::RED_FLAGS@.len() && #[trigger] intent::hit(
                intent::with_context(spans[i], contexts[i]),
                k,
            ) ==> intent::RED_FLAGS@[k].2 == intent::Weight::Indicative,
    ensures
        decision(aggregate(scores), config) == Decision::Release,
{
    assert forall|i: int| 0 <= i < scores.len() implies #[trigger] scores[i]
        <= intent::MAX_INDICATIVE_RISK by {
        scanner::law_names_alone_stay_below_their_ceiling(
            spans[i],
            filename,
            i == 0,
            contexts[i],
        );
    }
    law_repeated_signals_do_not_accumulate(scores, intent::MAX_INDICATIVE_RISK as int);
}

/// A configuration that is accepted leaves room for each of the three
/// decisions.
pub proof fn law_a_valid_configuration_has_three_bands(risk: RiskConfig, chunking: ChunkingConfig)
    requires
        config::first_fault(risk, chunking) is None,
    ensures
        decision(0, risk) == Decision::Release,
        decision(risk.sandbox_threshold as int, risk) == Decision::Inconclusive,
        decision(RISK_ONE as int, risk) == Decision::Block,
{
}

/// Three bands, and no gap between them: below both thresholds a file is
/// released, from the block threshold on it is blocked, and in between it is
/// held as inconclusive.
pub proof fn law_the_three_bands(score: int, config: RiskConfig)
    ensures
        decision(score, config) == Decision::Block <==> score >= config.block_threshold,
        decision(score, config) == Decision::Inconclusive <==> config.sandbox_threshold <= score
            < config.block_threshold,
{
}

proof fn lemma_greatest_is_one(scores: Seq<i64>)
    requires
        greatest(scores) > 0,
    ensures
        exists|i: int| 0 <= i < scores.len() && #[trigger] scores[i] == greatest(scores),
    decreases scores.len(),
{
    let shorter = scores.drop_last();
    if greatest(shorter) < scores.last() {
        assert(scores[scores.len() - 1] == greatest(scores));
    } else {
        lemma_greatest_is_one(shorter);
        let i = choose|i: int| 0 <= i < shorter.len() && #[trigger] shorter[i] == greatest(shorter);
        assert(scores[i] == greatest(scores));
    }
}

/// The score of a pass is the score of one of its spans, brought down to
/// certainty, or nothing.
pub proof fn law_the_score_of_a_pass_is_that_of_a_span(scores: Seq<i64>)
    ensures
        aggregate(Seq::empty()) == 0,
        aggregate(scores) > 0 ==> exists|i: int|
            0 <= i < scores.len() && aggregate(scores) == vstd::math::min(
                10_000,
                #[trigger] scores[i] as int,
            ),
{
    if aggregate(scores) > 0 {
        lemma_greatest_is_one(scores);
        let i = choose|i: int| 0 <= i < scores.len() && #[trigger] scores[i] == greatest(scores);
        assert(aggregate(scores) == vstd::math::min(10_000, scores[i] as int));
    }
}

} // verus!
