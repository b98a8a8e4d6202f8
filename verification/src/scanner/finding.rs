//! Structured findings: what was found, and what it means to a person.
//!
//! A finding carries three separate texts: `title`, the headline in plain
//! language; `detail`, what was observed; and `why`, what it could mean for
//! the user. Kept apart, each surface can show what suits it.
use crate::numbers::RISK_ONE;
use crate::text;
use vstd::prelude::*;

verus! {

/// How serious a single finding is, independent of the aggregate risk score.
#[derive(Debug, Clone, Copy, PartialEq, Eq, Structural)]
pub enum Severity {
    /// Near-certain malice. On its own, enough to block.
    Critical,
    /// Strong signal.
    High,
    /// Worth reporting; rarely decisive alone.
    Medium,
    /// Weak corroborating signal.
    Low,
}

/// One thing the scanner found, explained.
#[derive(Debug)]
pub struct Finding {
    pub severity: Severity,
    /// Plain-language headline.
    pub title: String,
    /// What was observed.
    pub detail: String,
    /// Why it matters.
    pub why: String,
    /// Risk contribution, between zero and `RISK_ONE`.
    pub risk: i64,
}

/// What a finding says.
pub struct FindingModel {
    pub severity: Severity,
    pub title: Seq<char>,
    pub detail: Seq<char>,
    pub why: Seq<char>,
    pub risk: int,
}

impl View for Finding {
    type V = FindingModel;

    open spec fn view(&self) -> FindingModel {
        FindingModel {
            severity: self.severity,
            title: self.title@,
            detail: self.detail@,
            why: self.why@,
            risk: self.risk as int,
        }
    }
}

impl Clone for Finding {
    fn clone(&self) -> (r: Self)
        ensures
            r@ == self@,
    {
        Finding {
            severity: self.severity,
            title: self.title.clone(),
            detail: self.detail.clone(),
            why: self.why.clone(),
            risk: self.risk,
        }
    }
}

/// The word for a severity.
pub open spec fn severity_label(s: Severity) -> Seq<char> {
    match s {
        Severity::Critical => "Critical"@,
        Severity::High => "High"@,
        Severity::Medium => "Medium"@,
        Severity::Low => "Low"@,
    }
}

impl Severity {
    /// The word for this severity.
    pub fn label(&self) -> (r: &'static str)
        ensures
            r@ == severity_label(*self),
    {
        match self {
            Severity::Critical => "Critical",
            Severity::High => "High",
            Severity::Medium => "Medium",
            Severity::Low => "Low",
        }
    }
}

/// A risk brought into the range from zero to `RISK_ONE`.
pub open spec fn clamped(risk: int) -> int {
    if risk < 0 {
        0
    } else if risk > RISK_ONE {
        RISK_ONE as int
    } else {
        risk
    }
}

/// The finding with these parts.
pub open spec fn finding(
    severity: Severity,
    title: Seq<char>,
    detail: Seq<char>,
    why: Seq<char>,
    risk: int,
) -> FindingModel {
    FindingModel { severity, title, detail, why, risk: clamped(risk) }
}

/// A finding on a single line.
pub open spec fn one_line_text(f: FindingModel) -> Seq<char> {
    "["@ + severity_label(f.severity) + "] "@ + f.title + ": "@ + f.detail
}

impl Finding {
    /// A finding; the risk is brought into the range from zero to `RISK_ONE`.
    pub fn new(severity: Severity, title: String, detail: String, why: String, risk: i64) -> (r:
        Self)
        ensures
            r@ == finding(severity, title@, detail@, why@, risk as int),
    {
        let risk: i64 = if risk < 0 {
            0
        } else if risk > RISK_ONE {
            RISK_ONE
        } else {
            risk
        };
        Finding { severity, title, detail, why, risk }
    }

    /// Single-line rendering, for logs and for surfaces that cannot show
    /// structure.
    pub fn one_line(&self) -> (r: String)
        ensures
            r@ == one_line_text(self@),
    {
        let mut out: String = "[".to_string();
        out.append(self.severity.label());
        out.append("] ");
        out.append(self.title.as_str());
        out.append(": ");
        out.append(self.detail.as_str());
        out
    }
}

/// What the findings of a list say.
pub open spec fn models(list: Seq<Finding>) -> Seq<FindingModel> {
    Seq::new(list.len(), |i: int| list[i]@)
}

/// A list with one finding more says one thing more.
pub broadcast proof fn lemma_models_push(list: Seq<Finding>, f: Finding)
    ensures
        #[trigger] models(list.push(f)) == models(list).push(f@),
{
    assert(models(list.push(f)) =~= models(list).push(f@));
}

/// What two lists say, put one behind the other.
pub broadcast proof fn lemma_models_add(a: Seq<Finding>, b: Seq<Finding>)
    ensures
        #[trigger] models(a + b) == models(a) + models(b),
{
    assert(models(a + b) =~= models(a) + models(b));
}

/// The single-line renderings of findings.
pub open spec fn one_line_texts(list: Seq<FindingModel>) -> Seq<Seq<char>> {
    Seq::new(list.len(), |i: int| one_line_text(list[i]))
}

/// The greatest risk that a finding of the list contributes, zero without a
/// finding.
pub open spec fn worst_risk(list: Seq<FindingModel>) -> int
    decreases list.len(),
{
    if list.len() == 0 {
        0
    } else {
        let before = worst_risk(list.drop_last());
        if before < list.last().risk {
            list.last().risk
        } else {
            before
        }
    }
}

/// The single-line renderings of findings.
pub fn one_lines(list: &[Finding]) -> (r: Vec<String>)
    ensures
        text::texts(r@) == one_line_texts(models(list@)),
{
    let mut out: Vec<String> = Vec::new();
    let mut i: usize = 0;
    while i < list.len()
        invariant
            i <= list@.len(),
            out@.len() == i,
            forall|j: int|
                0 <= j < i ==> (#[trigger] out@[j])@ == one_line_text(list@[j]@),
        decreases list@.len() - i,
    {
        out.push(list[i].one_line());
        i += 1;
    }
    assert(text::texts(out@) =~= one_line_texts(models(list@)));
    out
}

/// The greatest risk that a finding contributes.
pub fn worst(list: &[Finding]) -> (r: i64)
    ensures
        r == worst_risk(models(list@)),
{
    let mut out: i64 = 0;
    let mut i: usize = 0;
    while i < list.len()
        invariant
            i <= list@.len(),
            out == worst_risk(models(list@).take(i as int)),
        decreases list@.len() - i,
    {
        proof {
            let longer = models(list@).take(i + 1);
            assert(longer.drop_last() =~= models(list@).take(i as int));
            assert(longer.last() == list@[i as int]@);
        }
        if list[i].risk > out {
            out = list[i].risk;
        }
        i += 1;
    }
    assert(models(list@).take(list@.len() as int) =~= models(list@));
    out
}

/// A copy of a list of findings.
pub fn copy_findings(list: &[Finding]) -> (r: Vec<Finding>)
    ensures
        models(r@) == models(list@),
{
    let mut out: Vec<Finding> = Vec::new();
    let mut i: usize = 0;
    while i < list.len()
        invariant
            i <= list@.len(),
            out@.len() == i,
            forall|j: int| 0 <= j < i ==> (#[trigger] out@[j])@ == list@[j]@,
        decreases list@.len() - i,
    {
        out.push(list[i].clone());
        i += 1;
    }
    assert(models(out@) =~= models(list@));
    out
}

/// Appends the findings of one list to another.
pub fn append_all(out: &mut Vec<Finding>, more: Vec<Finding>)
    ensures
        models(final(out)@) == models(old(out)@) + models(more@),
{
    broadcast use lemma_models_add;

    let mut rest: Vec<Finding> = more;
    out.append(&mut rest);
}

/// Appends a finding, if there is one.
pub fn append_one(out: &mut Vec<Finding>, more: Option<Finding>)
    ensures
        models(final(out)@) == models(old(out)@) + optional(more),
{
    broadcast use lemma_models_push;

    let ghost before = models(out@);
    match more {
        Some(f) => {
            out.push(f);
            assert(before.push(f@) =~= before + seq![f@]);
        },
        None => {
            assert(before + Seq::<FindingModel>::empty() =~= before);
        },
    }
}

/// What an optional finding says, as a list.
pub open spec fn optional(f: Option<Finding>) -> Seq<FindingModel> {
    match f {
        Some(g) => seq![g@],
        None => Seq::empty(),
    }
}

// ---------------------------------------------------------------------------
// Order
// ---------------------------------------------------------------------------

/// The place of a severity in the order of findings, the worst first.
pub open spec fn rank(s: Severity) -> int {
    match s {
        Severity::Critical => 0,
        Severity::High => 1,
        Severity::Medium => 2,
        Severity::Low => 3,
    }
}

/// Finding `a` is shown before finding `b`, whichever was found first.
pub open spec fn outranks(a: FindingModel, b: FindingModel) -> bool {
    rank(a.severity) < rank(b.severity) || (rank(a.severity) == rank(b.severity) && a.risk
        > b.risk)
}

/// No finding of the list stands before one that outranks it.
pub open spec fn in_order(list: Seq<FindingModel>) -> bool {
    forall|i: int, j: int| 0 <= i < j < list.len() ==> !outranks(#[trigger] list[j], #[trigger] list[i])
}

/// An ordered list with one finding more, behind those that it does not
/// outrank.
pub open spec fn placed(list: Seq<FindingModel>, f: FindingModel) -> Seq<FindingModel>
    decreases list.len(),
{
    if list.len() > 0 && outranks(f, list.last()) {
        placed(list.drop_last(), f).push(list.last())
    } else {
        list.push(f)
    }
}

/// The findings in order: the most serious first, of equally serious ones the
/// riskiest first, and of findings alike in both the one found first.
pub open spec fn ordered(list: Seq<FindingModel>) -> Seq<FindingModel>
    decreases list.len(),
{
    if list.len() == 0 {
        list
    } else {
        placed(ordered(list.drop_last()), list.last())
    }
}

/// Where `placed` puts a finding.
proof fn lemma_placed_at(list: Seq<FindingModel>, f: FindingModel, i: int)
    requires
        0 <= i <= list.len(),
        forall|k: int| i <= k < list.len() ==> outranks(f, #[trigger] list[k]),
        i > 0 ==> !outranks(f, list[i - 1]),
    ensures
        placed(list, f) == list.insert(i, f),
    decreases list.len(),
{
    if i < list.len() {
        assert(outranks(f, list.last()));
        lemma_placed_at(list.drop_last(), f, i);
        assert(list.drop_last().insert(i, f).push(list.last()) =~= list.insert(i, f));
    } else {
        assert(list.push(f) =~= list.insert(i, f));
    }
}

/// Whether finding `a` is shown before finding `b`.
fn is_before(a: &Finding, b: &Finding) -> (r: bool)
    ensures
        r == outranks(a@, b@),
{
    let x: u8 = rank_of(a.severity);
    let y: u8 = rank_of(b.severity);
    x < y || (x == y && a.risk > b.risk)
}

/// The place of a severity in the order of findings.
fn rank_of(s: Severity) -> (r: u8)
    ensures
        r == rank(s),
{
    match s {
        Severity::Critical => 0,
        Severity::High => 1,
        Severity::Medium => 2,
        Severity::Low => 3,
    }
}

/// Orders findings so that the most serious explanation comes first.
pub fn sort_by_severity(findings: &mut Vec<Finding>)
    ensures
        models(final(findings)@) == ordered(models(old(findings)@)),
{
    let mut rest: Vec<Finding> = Vec::new();
    rest.append(findings);
    let ghost all = models(rest@);
    let mut sorted: Vec<Finding> = Vec::new();
    let n: usize = rest.len();
    let mut done: usize = 0;
    assert(models(sorted@) =~= ordered(all.take(0)));
    while done < n
        invariant
            done <= n,
            all.len() == n,
            rest@.len() == n - done,
            models(rest@) == all.skip(done as int),
            models(sorted@) == ordered(all.take(done as int)),
        decreases n - done,
    {
        let ghost whole = rest@;
        let f = rest.remove(0);
        proof {
            assert(f@ == models(whole)[0]);
            assert forall|i: int| 0 <= i < rest@.len() implies models(rest@)[i] == all.skip(
                done + 1,
            )[i] by {
                assert(models(rest@)[i] == models(whole)[i + 1]);
            }
            assert(models(rest@) =~= all.skip(done + 1));
        }
        let mut i: usize = sorted.len();
        while i > 0 && is_before(&f, &sorted[i - 1])
            invariant
                i <= sorted@.len(),
                forall|k: int| i <= k < sorted@.len() ==> outranks(f@, (#[trigger] sorted@[k])@),
            decreases i,
        {
            i -= 1;
        }
        proof {
            let list = models(sorted@);
            assert(forall|k: int| i <= k < list.len() ==> outranks(f@, #[trigger] list[k]));
            lemma_placed_at(list, f@, i as int);
            let longer = all.take(done + 1);
            assert(longer.drop_last() =~= all.take(done as int));
            assert(longer.last() == f@);
        }
        let ghost before = sorted@;
        sorted.insert(i, f);
        assert(models(sorted@) =~= models(before).insert(i as int, f@));
        done += 1;
    }
    assert(all.take(n as int) =~= all);
    findings.append(&mut sorted);
}

/// The band of severity into which a risk contribution falls.
pub open spec fn severity_band(risk: int) -> Severity {
    if risk >= 8_500 {
        Severity::Critical
    } else if risk >= 5_500 {
        Severity::High
    } else if risk >= 3_000 {
        Severity::Medium
    } else {
        Severity::Low
    }
}

/// Maps a risk contribution onto a severity band.
pub fn severity_for(risk: i64) -> (r: Severity)
    ensures
        r == severity_band(risk as int),
{
    if risk >= 8_500 {
        Severity::Critical
    } else if risk >= 5_500 {
        Severity::High
    } else if risk >= 3_000 {
        Severity::Medium
    } else {
        Severity::Low
    }
}

// ---------------------------------------------------------------------------
// Laws
// ---------------------------------------------------------------------------

/// The findings of a list that are alike in severity and risk.
pub open spec fn alike(list: Seq<FindingModel>, severity: Severity, risk: int) -> Seq<FindingModel>
    decreases list.len(),
{
    if list.len() == 0 {
        list
    } else {
        let before = alike(list.drop_last(), severity, risk);
        if list.last().severity == severity && list.last().risk == risk {
            before.push(list.last())
        } else {
            before
        }
    }
}

proof fn lemma_placed(list: Seq<FindingModel>, f: FindingModel)
    requires
        in_order(list),
    ensures
        in_order(placed(list, f)),
        placed(list, f).len() == list.len() + 1,
        placed(list, f).last() == f || (list.len() > 0 && placed(list, f).last() == list.last()),
        placed(list, f).to_multiset() =~= list.to_multiset().insert(f),
        forall|k: int|
            0 <= k < placed(list, f).len() ==> (#[trigger] placed(list, f)[k]) == f
                || list.contains(placed(list, f)[k]),
    decreases list.len(),
{
    broadcast use vstd::seq_lib::group_to_multiset_ensures;

    let out = placed(list, f);
    if list.len() > 0 && outranks(f, list.last()) {
        let shorter = list.drop_last();
        let inner = placed(shorter, f);
        lemma_placed(shorter, f);
        assert forall|i: int, j: int| 0 <= i < j < out.len() implies !outranks(
            #[trigger] out[j],
            #[trigger] out[i],
        ) by {
            if j == out.len() - 1 {
                assert(out[j] == list.last());
                assert(out[i] == inner[i]);
                if inner[i] != f {
                    assert(shorter.contains(inner[i]));
                    let k = choose|k: int| 0 <= k < shorter.len() && shorter[k] == inner[i];
                    assert(list[k] == inner[i]);
                    assert(!outranks(list[list.len() - 1], list[k]));
                }
            } else {
                assert(out[j] == inner[j] && out[i] == inner[i]);
            }
        }
        assert forall|k: int| 0 <= k < out.len() implies (#[trigger] out[k]) == f || list.contains(
            out[k],
        ) by {
            if k < out.len() - 1 {
                assert(out[k] == inner[k]);
                if inner[k] != f {
                    let m = choose|m: int| 0 <= m < shorter.len() && shorter[m] == inner[k];
                    assert(list[m] == out[k]);
                }
            } else {
                assert(list[list.len() - 1] == out[k]);
            }
        }
        assert(list =~= shorter.push(list.last()));
        assert(list.to_multiset() =~= shorter.to_multiset().insert(list.last()));
        assert(out.to_multiset() =~= inner.to_multiset().insert(list.last()));
    } else {
        assert forall|i: int, j: int| 0 <= i < j < out.len() implies !outranks(
            #[trigger] out[j],
            #[trigger] out[i],
        ) by {
            if j == list.len() {
                if i < list.len() - 1 {
                    assert(!outranks(list[list.len() - 1], list[i]));
                }
            } else {
                assert(out[j] == list[j] && out[i] == list[i]);
            }
        }
        assert forall|k: int| 0 <= k < out.len() implies (#[trigger] out[k]) == f || list.contains(
            out[k],
        ) by {
            if k < list.len() {
                assert(list[k] == out[k]);
            }
        }
    }
}

proof fn lemma_placed_alike(list: Seq<FindingModel>, f: FindingModel, severity: Severity, risk: int)
    ensures
        alike(placed(list, f), severity, risk) == alike(list.push(f), severity, risk),
    decreases list.len(),
{
    reveal_with_fuel(alike, 3);
    assert(list.push(f).drop_last() =~= list);
    if list.len() > 0 && outranks(f, list.last()) {
        let shorter = list.drop_last();
        lemma_placed_alike(shorter, f, severity, risk);
        assert(shorter.push(f).drop_last() =~= shorter);
        assert(placed(list, f).drop_last() =~= placed(shorter, f));
        assert(placed(list, f).last() == list.last());
    }
}

/// Sorting puts the worst first: no finding stands before one that outranks
/// it.
pub proof fn law_sorted_findings_are_in_order(list: Seq<FindingModel>)
    ensures
        in_order(ordered(list)),
        ordered(list).len() == list.len(),
    decreases list.len(),
{
    if list.len() > 0 {
        law_sorted_findings_are_in_order(list.drop_last());
        lemma_placed(ordered(list.drop_last()), list.last());
    }
}

/// Sorting loses no finding and adds none.
pub proof fn law_sorting_keeps_the_findings(list: Seq<FindingModel>)
    ensures
        ordered(list).to_multiset() == list.to_multiset(),
    decreases list.len(),
{
    broadcast use vstd::seq_lib::group_to_multiset_ensures;

    if list.len() > 0 {
        law_sorting_keeps_the_findings(list.drop_last());
        law_sorted_findings_are_in_order(list.drop_last());
        lemma_placed(ordered(list.drop_last()), list.last());
        assert(list =~= list.drop_last().push(list.last()));
    }
}

/// Findings alike in severity and risk keep the order in which they were
/// found.
pub proof fn law_sorting_is_stable(list: Seq<FindingModel>, severity: Severity, risk: int)
    ensures
        alike(ordered(list), severity, risk) == alike(list, severity, risk),
    decreases list.len(),
{
    if list.len() > 0 {
        let shorter = list.drop_last();
        law_sorting_is_stable(shorter, severity, risk);
        lemma_placed_alike(ordered(shorter), list.last(), severity, risk);
        assert(ordered(shorter).push(list.last()).drop_last() =~= ordered(shorter));
    }
}

/// The first of the sorted findings is as serious as any of them.
pub proof fn law_worst_finding_sorts_first(list: Seq<FindingModel>, i: int)
    requires
        0 <= i < list.len(),
    ensures
        rank(ordered(list)[0].severity) <= rank(list[i].severity),
{
    broadcast use vstd::seq_lib::group_to_multiset_ensures;

    let sorted = ordered(list);
    law_sorted_findings_are_in_order(list);
    law_sorting_keeps_the_findings(list);
    assert(list.contains(list[i]));
    assert(list.to_multiset().count(list[i]) > 0);
    assert(sorted.contains(list[i]));
    let k = choose|k: int| 0 <= k < sorted.len() && sorted[k] == list[i];
    if k > 0 {
        assert(!outranks(sorted[k], sorted[0]));
    }
}

/// A more risky contribution never falls into a milder band.
pub proof fn law_severity_bands_are_ordered(less: int, more: int)
    requires
        less <= more,
    ensures
        rank(severity_band(more)) <= rank(severity_band(less)),
{
}

pub proof fn lemma_worst_is_bound(list: Seq<FindingModel>, i: int)
    requires
        0 <= i < list.len(),
    ensures
        list[i].risk <= worst_risk(list),
    decreases list.len(),
{
    if i < list.len() - 1 {
        lemma_worst_is_bound(list.drop_last(), i);
        assert(list.drop_last()[i] == list[i]);
    }
}

/// The risk that a list of findings amounts to is that of its riskiest
/// finding: none exceeds it, and one reaches it.
pub proof fn law_worst_risk_is_the_maximum(list: Seq<FindingModel>)
    requires
        forall|i: int| 0 <= i < list.len() ==> 0 <= (#[trigger] list[i]).risk <= RISK_ONE,
    ensures
        0 <= worst_risk(list) <= RISK_ONE,
        forall|i: int| 0 <= i < list.len() ==> (#[trigger] list[i]).risk <= worst_risk(list),
        list.len() > 0 ==> exists|i: int|
            0 <= i < list.len() && (#[trigger] list[i]).risk == worst_risk(list),
    decreases list.len(),
{
    assert forall|i: int| 0 <= i < list.len() implies (#[trigger] list[i]).risk <= worst_risk(
        list,
    ) by {
        lemma_worst_is_bound(list, i);
    }
    if list.len() > 0 {
        let shorter = list.drop_last();
        assert(forall|i: int| 0 <= i < shorter.len() ==> shorter[i] == list[i]);
        law_worst_risk_is_the_maximum(shorter);
        if worst_risk(list) == list.last().risk {
            assert(list[list.len() - 1].risk == worst_risk(list));
        } else {
            if shorter.len() > 0 {
                let k = choose|k: int|
                    0 <= k < shorter.len() && (#[trigger] shorter[k]).risk == worst_risk(shorter);
                assert(list[k].risk == worst_risk(list));
            } else {
                assert(list.last().risk >= 0);
            }
        }
    }
}

/// Findings whose risks are risks.
pub open spec fn bounded(list: Seq<FindingModel>) -> bool {
    forall|i: int| 0 <= i < list.len() ==> 0 <= (#[trigger] list[i]).risk <= RISK_ONE
}

/// The risk that a list amounts to is at least zero.
pub proof fn law_worst_risk_is_not_negative(list: Seq<FindingModel>)
    ensures
        0 <= worst_risk(list),
    decreases list.len(),
{
    if list.len() > 0 {
        law_worst_risk_is_not_negative(list.drop_last());
    }
}

/// A list holds a finding of this severity and risk.
pub open spec fn reports(list: Seq<FindingModel>, severity: Severity, risk: int) -> bool {
    exists|i: int|
        0 <= i < list.len() && (#[trigger] list[i]).severity == severity && list[i].risk == risk
}

/// What is reported counts: the worst risk is no less.
pub proof fn law_what_is_reported_counts(list: Seq<FindingModel>, severity: Severity, risk: int)
    requires
        reports(list, severity, risk),
    ensures
        worst_risk(list) >= risk,
        list.len() > 0,
{
    let i = choose|i: int|
        0 <= i < list.len() && (#[trigger] list[i]).severity == severity && list[i].risk == risk;
    lemma_worst_is_bound(list, i);
}

/// What is reported in a part of a list is reported in the list.
pub proof fn lemma_reported_within(
    before: Seq<FindingModel>,
    list: Seq<FindingModel>,
    after: Seq<FindingModel>,
    severity: Severity,
    risk: int,
)
    requires
        reports(list, severity, risk),
    ensures
        reports(before + list + after, severity, risk),
{
    let i = choose|i: int|
        0 <= i < list.len() && (#[trigger] list[i]).severity == severity && list[i].risk == risk;
    assert((before + list + after)[before.len() + i] == list[i]);
}

/// A single finding is reported.
pub proof fn lemma_single_is_reported(list: Seq<FindingModel>, severity: Severity, risk: int)
    requires
        list.len() == 1,
        list[0].severity == severity,
        list[0].risk == risk,
    ensures
        reports(list, severity, risk),
{
}

/// A risk is as serious as its band: from eighty-five hundredths of certainty on
/// critical, from fifty-five on high, from thirty on medium, and below low.
pub proof fn law_the_bands_of_severity(risk: int)
    ensures
        severity_band(risk) == Severity::Critical <==> risk >= 8_500,
        severity_band(risk) == Severity::High <==> 5_500 <= risk < 8_500,
        severity_band(risk) == Severity::Medium <==> 3_000 <= risk < 5_500,
        severity_band(risk) == Severity::Low <==> risk < 3_000,
{
}

/// The risk of a finding lies between nothing and certainty, and is what it was
/// given where that does; nothing else of it is changed.
pub proof fn law_a_finding_keeps_its_parts(
    severity: Severity,
    title: Seq<char>,
    detail: Seq<char>,
    why: Seq<char>,
    risk: int,
)
    ensures
        finding(severity, title, detail, why, risk).severity == severity,
        finding(severity, title, detail, why, risk).title == title,
        finding(severity, title, detail, why, risk).detail == detail,
        finding(severity, title, detail, why, risk).why == why,
        0 <= finding(severity, title, detail, why, risk).risk <= 10_000,
        0 <= risk <= 10_000 ==> finding(severity, title, detail, why, risk).risk == risk,
        risk > 10_000 ==> finding(severity, title, detail, why, risk).risk == 10_000,
{
}

/// The more serious of two findings comes first, and of equally serious ones the
/// riskier: critical before high, high before medium, medium before low.
pub proof fn law_the_order_of_severity(list: Seq<FindingModel>, i: int, j: int)
    requires
        0 <= i < j < ordered(list).len(),
    ensures
        ordered(list)[j].severity == Severity::Critical ==> ordered(list)[i].severity
            == Severity::Critical,
        ordered(list)[j].severity == Severity::High ==> ordered(list)[i].severity
            == Severity::Critical || ordered(list)[i].severity == Severity::High,
        ordered(list)[j].severity == Severity::Medium ==> ordered(list)[i].severity
            != Severity::Low,
        ordered(list)[i].severity == ordered(list)[j].severity ==> ordered(list)[i].risk
            >= ordered(list)[j].risk,
{
    law_sorted_findings_are_in_order(list);
    let sorted = ordered(list);
    assert(!outranks(sorted[j], sorted[i]));
}

} // verus!
