//! The scanner.
//!
//! `deep_forensic_scan` runs on every span while a download is still arriving:
//! only checks that work on a prefix belong there. `whole_file_scan` runs once
//! the download is complete, because the logical end of a format, the entropy
//! of a file and the tables at its end need every byte. Both give a
//! `ForensicResult`, and `combine` merges the two.
use crate::numbers::RISK_ONE;
use crate::scanner::entropy::Measurement;
use crate::scanner::finding::{
    append_all, copy_findings, severity_for, sort_by_severity, Finding, FindingModel, Severity,
};
use crate::scanner::intent::detect_dangerous_intent;
use crate::scanner::magic_bytes::MagicBytesResult;
use crate::scanner::signature::{
    any_serious, apply_trust_credit, copy_status, TrustModel, TrustStatus,
};
use crate::text;
use crate::text::{claimed_extension_of, copy_list, list_contains};
use vstd::prelude::*;

pub mod archive;
pub mod autoexec;
pub mod entropy;
pub mod finding;
pub mod intent;
pub mod magic_bytes;
pub mod opening;
pub mod packing;
pub mod pe;
pub mod signature;
pub mod structure;

verus! {

/// Combined result from scanning.
#[derive(Debug)]
pub struct ForensicResult {
    pub header_valid: bool,
    pub extension_mismatch: bool,
    pub dangerous_intent: bool,
    /// Structural anomaly: polyglot, appended payload, double extension.
    pub structural_anomaly: bool,
    /// Entropy inconsistent with the declared file type.
    pub entropy_anomaly: bool,
    /// PE structure suggests packing or tampering.
    pub pe_anomaly: bool,
    /// The file is a format that runs something when opened.
    pub auto_execution: bool,
    /// What is known of the signature, where it was checkable.
    pub signature_status: Option<TrustStatus>,
    pub risk_score: i64,
    /// How much a valid signature took off the risk.
    pub signature_discount: i64,
    pub descriptions: Vec<String>,
    /// Structured, explained findings.
    pub findings: Vec<Finding>,
}

/// What a result says.
pub struct ForensicModel {
    pub header_valid: bool,
    pub extension_mismatch: bool,
    pub dangerous_intent: bool,
    pub structural_anomaly: bool,
    pub entropy_anomaly: bool,
    pub pe_anomaly: bool,
    pub auto_execution: bool,
    pub signature_status: Option<TrustModel>,
    pub risk_score: int,
    pub signature_discount: int,
    pub descriptions: Seq<Seq<char>>,
    pub findings: Seq<FindingModel>,
}

impl View for ForensicResult {
    type V = ForensicModel;

    open spec fn view(&self) -> ForensicModel {
        ForensicModel {
            header_valid: self.header_valid,
            extension_mismatch: self.extension_mismatch,
            dangerous_intent: self.dangerous_intent,
            structural_anomaly: self.structural_anomaly,
            entropy_anomaly: self.entropy_anomaly,
            pe_anomaly: self.pe_anomaly,
            auto_execution: self.auto_execution,
            signature_status: signature::status_view(self.signature_status),
            risk_score: self.risk_score as int,
            signature_discount: self.signature_discount as int,
            descriptions: text::texts(self.descriptions@),
            findings: finding::models(self.findings@),
        }
    }
}

/// The result that says nothing.
pub open spec fn blank() -> ForensicModel {
    ForensicModel {
        header_valid: false,
        extension_mismatch: false,
        dangerous_intent: false,
        structural_anomaly: false,
        entropy_anomaly: false,
        pe_anomaly: false,
        auto_execution: false,
        signature_status: None,
        risk_score: 0,
        signature_discount: 0,
        descriptions: Seq::empty(),
        findings: Seq::empty(),
    }
}

impl Default for ForensicResult {
    fn default() -> (r: Self)
        ensures
            r@ == blank(),
    {
        let r = ForensicResult {
            header_valid: false,
            extension_mismatch: false,
            dangerous_intent: false,
            structural_anomaly: false,
            entropy_anomaly: false,
            pe_anomaly: false,
            auto_execution: false,
            signature_status: None,
            risk_score: 0,
            signature_discount: 0,
            descriptions: Vec::new(),
            findings: Vec::new(),
        };
        assert(text::texts(r.descriptions@) =~= Seq::<Seq<char>>::empty());
        assert(finding::models(r.findings@) =~= Seq::<FindingModel>::empty());
        r
    }
}

impl Clone for ForensicResult {
    fn clone(&self) -> (r: Self)
        ensures
            r@ == self@,
    {
        ForensicResult {
            header_valid: self.header_valid,
            extension_mismatch: self.extension_mismatch,
            dangerous_intent: self.dangerous_intent,
            structural_anomaly: self.structural_anomaly,
            entropy_anomaly: self.entropy_anomaly,
            pe_anomaly: self.pe_anomaly,
            auto_execution: self.auto_execution,
            signature_status: copy_status(&self.signature_status),
            risk_score: self.risk_score,
            signature_discount: self.signature_discount,
            descriptions: copy_list(self.descriptions.as_slice()),
            findings: copy_findings(self.findings.as_slice()),
        }
    }
}

/// A sum of risks, which certainty bounds.
pub open spec fn capped_sum(a: int, b: int) -> int {
    if a + b > RISK_ONE {
        RISK_ONE as int
    } else {
        a + b
    }
}

/// The greater of two risks.
pub open spec fn greater(a: int, b: int) -> int {
    if a < b {
        b
    } else {
        a
    }
}

// ---------------------------------------------------------------------------
// While the download arrives
// ---------------------------------------------------------------------------

pub const MISMATCH_TITLE: &'static str = "File is not the type it claims to be";

pub const MISMATCH_WHY: &'static str = "The file's actual contents contradict its extension. A program renamed to look \
     like a document or image is the oldest trick there is, and the reason it still \
     works is that people trust the name.";

pub const INTENT_TITLE: &'static str = "File contains code associated with malware";

pub const INTENT_WHY: &'static str = "Programs that inject into other processes, log keystrokes, install themselves to run \
     at startup, or open remote shells are doing things ordinary software has no reason \
     to do.";

/// The finding about a file that is not of its claimed type.
pub open spec fn mismatch_findings(header: magic_bytes::MagicModel) -> Seq<FindingModel> {
    if header.mismatch {
        seq![
            finding::finding(
                Severity::Critical,
                MISMATCH_TITLE@,
                header.description,
                MISMATCH_WHY@,
                header.risk,
            ),
        ]
    } else {
        Seq::empty()
    }
}

/// The findings about dangerous intent, one for each description.
pub open spec fn intent_findings(flags: Seq<Seq<char>>, risk: int) -> Seq<FindingModel> {
    Seq::new(
        flags.len(),
        |i: int|
            finding::finding(
                finding::severity_band(risk),
                INTENT_TITLE@,
                flags[i],
                INTENT_WHY@,
                risk,
            ),
    )
}

/// The risk of a span. Names of ordinary functions, tools and paths corroborate
/// a mismatch, and a literal attack command weighs on top of the header; alone,
/// such names stay what they are, and the header adds nothing to them.
pub open spec fn span_risk(header: magic_bytes::MagicModel, intent_risk: int) -> int {
    if header.mismatch || intent_risk > intent::MAX_INDICATIVE_RISK {
        capped_sum(header.risk, intent_risk)
    } else {
        greater(header.risk, intent_risk)
    }
}

/// What the header of a file and the intent in a span amount to. A header that
/// was looked at has a description.
pub open spec fn span_result(
    header: magic_bytes::MagicModel,
    intent: intent::IntentModel,
) -> ForensicModel {
    ForensicModel {
        header_valid: header.valid,
        extension_mismatch: header.mismatch,
        dangerous_intent: intent.flagged,
        risk_score: span_risk(header, intent.risk),
        descriptions: (if header.description.len() > 0 {
            seq![header.description]
        } else {
            Seq::empty()
        }) + intent.flags,
        findings: (if header.description.len() > 0 {
            mismatch_findings(header)
        } else {
            Seq::empty()
        }) + intent_findings(intent.flags, intent.risk),
        ..blank()
    }
}

/// What scanning one span of a download gives.
pub open spec fn span_scan(
    chunk: Seq<u8>,
    filename: Seq<char>,
    is_first_chunk: bool,
    context_prefix: Option<Seq<u8>>,
) -> ForensicModel {
    span_result(
        if is_first_chunk {
            magic_bytes::header_check(chunk, filename)
        } else {
            magic_bytes::unexamined()
        },
        intent::intent(intent::with_context(chunk, context_prefix)),
    )
}

/// Scans one span, as bytes arrive. The magic bytes are looked at in the first
/// span only, intent in every span, with the tail of the one before it.
pub fn deep_forensic_scan(
    chunk: &[u8],
    filename: &str,
    is_first_chunk: bool,
    context_prefix: Option<&[u8]>,
) -> (r: ForensicResult)
    ensures
        r@ == span_scan(chunk@, filename@, is_first_chunk, intent::slice_view(context_prefix)),
{
    broadcast use text::lemma_texts_push, finding::lemma_models_push;

    let header = if is_first_chunk {
        magic_bytes::scan_file(chunk, filename)
    } else {
        MagicBytesResult::default()
    };
    let found = detect_dangerous_intent(chunk, context_prefix);
    let mut descriptions: Vec<String> = Vec::new();
    let mut findings: Vec<Finding> = Vec::new();
    assert(text::texts(descriptions@) =~= Seq::<Seq<char>>::empty());
    assert(finding::models(findings@) =~= Seq::<FindingModel>::empty());
    if !header.description.as_str().is_empty() {
        descriptions.push(header.description.clone());
        if header.mismatch {
            findings.push(
                Finding::new(
                    Severity::Critical,
                    MISMATCH_TITLE.to_string(),
                    header.description.clone(),
                    MISMATCH_WHY.to_string(),
                    header.risk,
                ),
            );
        }
    }
    let ghost first_texts = text::texts(descriptions@);
    let ghost first_models = finding::models(findings@);
    proof {
        assert(first_texts =~= (if header.description@.len() > 0 {
            seq![header.description@]
        } else {
            Seq::empty()
        }));
        assert(first_models =~= (if header.description@.len() > 0 {
            mismatch_findings(header@)
        } else {
            Seq::empty()
        }));
        assert(first_texts + found@.flags.take(0) =~= first_texts);
        assert(first_models + intent_findings(found@.flags.take(0), found@.risk) =~= first_models);
    }
    let mut i: usize = 0;
    while i < found.flags.len()
        invariant
            i <= found.flags@.len(),
            text::texts(descriptions@) == first_texts + found@.flags.take(i as int),
            finding::models(findings@) == first_models + intent_findings(
                found@.flags.take(i as int),
                found@.risk,
            ),
        decreases found.flags@.len() - i,
    {
        let flag: &String = &found.flags[i];
        descriptions.push(flag.clone());
        let f = Finding::new(
            severity_for(found.risk),
            INTENT_TITLE.to_string(),
            flag.clone(),
            INTENT_WHY.to_string(),
            found.risk,
        );
        findings.push(f);
        proof {
            let all = found@.flags;
            assert(all[i as int] == flag@);
            assert((first_texts + all.take(i as int)).push(flag@) =~= first_texts + all.take(
                i + 1,
            ));
            assert((first_models + intent_findings(all.take(i as int), found@.risk)).push(f@)
                =~= first_models + intent_findings(all.take(i + 1), found@.risk));
        }
        i += 1;
    }
    assert(found@.flags.take(found.flags@.len() as int) =~= found@.flags);
    proof {
        intent::law_intent_risk_is_bounded(
            intent::with_context(chunk@, intent::slice_view(context_prefix)),
        );
    }
    let risk_score: i64 = if header.mismatch || found.risk > intent::MAX_INDICATIVE_RISK {
        let sum: i64 = header.risk + found.risk;
        if sum > RISK_ONE {
            RISK_ONE
        } else {
            sum
        }
    } else {
        max_risk(header.risk, found.risk)
    };
    ForensicResult {
        header_valid: header.valid,
        extension_mismatch: header.mismatch,
        dangerous_intent: found.flagged,
        structural_anomaly: false,
        entropy_anomaly: false,
        pe_anomaly: false,
        auto_execution: false,
        signature_status: None,
        risk_score,
        signature_discount: 0,
        descriptions,
        findings,
    }
}

// ---------------------------------------------------------------------------
// Once the download is complete
// ---------------------------------------------------------------------------

/// What the six analyses of a complete file gave.
pub struct Analyses {
    pub structure: Seq<FindingModel>,
    pub entropy: entropy::EntropyModel,
    pub pe: Seq<FindingModel>,
    pub archive: Seq<FindingModel>,
    pub autoexec: Seq<FindingModel>,
    pub signature: signature::SignatureModel,
}

/// The analyses of a complete file.
pub open spec fn analyses(
    data: Seq<u8>,
    filename: Seq<char>,
    overall: u64,
    windows: Seq<u64>,
    verified: Option<TrustModel>,
) -> Analyses {
    Analyses {
        structure: structure::structure_findings(data, filename),
        entropy: entropy::conclusion(
            data,
            text::lowercase(text::claimed_extension(filename)),
            overall,
            windows,
        ),
        pe: pe::image_findings(data),
        archive: archive::archive_findings(data, filename),
        autoexec: autoexec::execution_findings(data, filename),
        signature: signature::signature_check(
            verified,
            pe::well_formed(data),
            text::tail_extension(filename),
        ),
    }
}

/// The findings of the analyses, in the order in which they ran.
pub open spec fn all_findings(a: Analyses) -> Seq<FindingModel> {
    a.structure + a.pe + a.archive + a.autoexec + a.signature.findings
}

/// The greatest risk that one of the analyses gave. They overlap, so their
/// risks are not added up.
pub open spec fn greatest_risk(a: Analyses) -> int {
    greater(
        greater(
            greater(
                greater(
                    greater(finding::worst_risk(a.structure), a.entropy.risk),
                    finding::worst_risk(a.pe),
                ),
                finding::worst_risk(a.archive),
            ),
            finding::worst_risk(a.autoexec),
        ),
        a.signature.risk,
    )
}

/// What the analyses amount to. A valid signature is the one thing that can
/// reduce the risk.
pub open spec fn file_result(a: Analyses) -> ForensicModel {
    let findings = finding::ordered(all_findings(a));
    let risk_score = signature::credited(greatest_risk(a), a.signature.trust_credit, findings);
    ForensicModel {
        structural_anomaly: a.structure.len() > 0 || a.archive.len() > 0,
        entropy_anomaly: a.entropy.flagged,
        pe_anomaly: a.pe.len() > 0,
        auto_execution: a.autoexec.len() > 0,
        signature_status: a.signature.status,
        risk_score,
        signature_discount: greatest_risk(a) - risk_score,
        descriptions: finding::one_line_texts(a.structure) + a.entropy.flags
            + finding::one_line_texts(a.pe) + finding::one_line_texts(a.archive)
            + finding::one_line_texts(a.autoexec) + a.signature.flags,
        findings,
        ..blank()
    }
}

/// The greater of two risks.
fn max_risk(a: i64, b: i64) -> (r: i64)
    ensures
        r == greater(a as int, b as int),
{
    if a < b {
        b
    } else {
        a
    }
}

/// Appends the strings of one list to another.
fn append_texts(out: &mut Vec<String>, more: Vec<String>)
    ensures
        text::texts(final(out)@) == text::texts(old(out)@) + text::texts(more@),
{
    let mut rest: Vec<String> = more;
    let ghost a = out@;
    let ghost b = rest@;
    out.append(&mut rest);
    assert(text::texts(a + b) =~= text::texts(a) + text::texts(b));
}

/// Scans a complete file of which only the bytes are at hand. Signatures are
/// verified from a file on disk, so that check is reported as not made.
pub fn whole_file_scan(data: &[u8], filename: &str, measured: &Measurement) -> (r: ForensicResult)
    requires
        measured.windows@.len() == entropy::window_count(data@.len()),
    ensures
        r@ == file_result(
            analyses(data@, filename@, measured.overall, measured.windows@, None),
        ),
{
    whole_file_scan_at(data, filename, measured, None)
}

/// Scans a complete file. `verified` is the answer of the operating system
/// about its signature, nothing where it was not asked.
pub fn whole_file_scan_at(
    data: &[u8],
    filename: &str,
    measured: &Measurement,
    verified: Option<TrustStatus>,
) -> (r: ForensicResult)
    requires
        measured.windows@.len() == entropy::window_count(data@.len()),
    ensures
        r@ == file_result(
            analyses(
                data@,
                filename@,
                measured.overall,
                measured.windows@,
                signature::status_view(verified),
            ),
        ),
{
    let ghost all = analyses(
        data@,
        filename@,
        measured.overall,
        measured.windows@,
        signature::status_view(verified),
    );
    let claimed_ext = claimed_extension_of(filename);
    let structure_result = structure::analyse(data, filename);
    let entropy_result = entropy::analyse(data, claimed_ext.as_str(), measured);
    let pe_result = pe::analyse(data);
    let archive_result = archive::analyse(data, filename);
    let autoexec_result = autoexec::analyse(data, filename);
    let signature_result = signature::analyse(verified, pe_result.is_pe, filename);

    let mut descriptions: Vec<String> = structure_result.flags;
    append_texts(&mut descriptions, entropy_result.flags);
    append_texts(&mut descriptions, pe_result.flags);
    append_texts(&mut descriptions, archive_result.flags);
    append_texts(&mut descriptions, autoexec_result.flags);
    append_texts(&mut descriptions, signature_result.flags);

    let mut findings: Vec<Finding> = structure_result.findings;
    append_all(&mut findings, pe_result.findings);
    append_all(&mut findings, archive_result.findings);
    append_all(&mut findings, autoexec_result.findings);
    append_all(&mut findings, signature_result.findings);
    assert(finding::models(findings@) == all_findings(all));

    let mut risk: i64 = max_risk(structure_result.risk, entropy_result.risk);
    risk = max_risk(risk, pe_result.risk);
    risk = max_risk(risk, archive_result.risk);
    risk = max_risk(risk, autoexec_result.risk);
    risk = max_risk(risk, signature_result.risk);
    assert(risk == greatest_risk(all));

    sort_by_severity(&mut findings);
    let risk_score: i64 = apply_trust_credit(
        risk,
        signature_result.trust_credit,
        findings.as_slice(),
    );
    proof {
        finding::law_worst_risk_is_not_negative(all.structure);
        signature::law_credit_is_capped(
            greatest_risk(all),
            all.signature.trust_credit,
            finding::ordered(all_findings(all)),
        );
        signature::law_credit_never_goes_below_zero(
            greatest_risk(all),
            all.signature.trust_credit,
            finding::ordered(all_findings(all)),
        );
    }
    ForensicResult {
        header_valid: false,
        extension_mismatch: false,
        dangerous_intent: false,
        structural_anomaly: structure_result.flagged || archive_result.flagged,
        entropy_anomaly: entropy_result.flagged,
        pe_anomaly: pe_result.flagged,
        auto_execution: autoexec_result.flagged,
        signature_status: signature_result.status,
        risk_score,
        signature_discount: risk - risk_score,
        descriptions,
        findings,
    }
}

// ---------------------------------------------------------------------------
// Both together
// ---------------------------------------------------------------------------

/// A list with those items of another list behind it that it does not hold
/// yet.
pub open spec fn merged<T>(first: Seq<T>, second: Seq<T>) -> Seq<T>
    decreases second.len(),
{
    if second.len() == 0 {
        first
    } else {
        let before = merged(first, second.drop_last());
        if before.contains(second.last()) {
            before
        } else {
            before.push(second.last())
        }
    }
}

/// How much of a signature's discount is taken back: all of it, where the spans
/// showed something serious. A signature settles a weak case, never a strong
/// one.
pub open spec fn withheld(streaming: ForensicModel, whole_file: ForensicModel) -> int {
    if whole_file.signature_discount > 0 && signature::has_serious(streaming.findings) {
        whole_file.signature_discount
    } else {
        0
    }
}

/// What the scan of the spans and that of the complete file amount to
/// together. They are independent, so their risks add up.
pub open spec fn combination(streaming: ForensicModel, whole_file: ForensicModel) -> ForensicModel {
    ForensicModel {
        header_valid: streaming.header_valid,
        extension_mismatch: streaming.extension_mismatch,
        dangerous_intent: streaming.dangerous_intent,
        structural_anomaly: whole_file.structural_anomaly,
        entropy_anomaly: whole_file.entropy_anomaly,
        pe_anomaly: whole_file.pe_anomaly,
        auto_execution: whole_file.auto_execution,
        signature_status: whole_file.signature_status,
        risk_score: capped_sum(
            streaming.risk_score,
            whole_file.risk_score + withheld(streaming, whole_file),
        ),
        signature_discount: whole_file.signature_discount - withheld(streaming, whole_file),
        descriptions: merged(streaming.descriptions, whole_file.descriptions),
        findings: finding::ordered(streaming.findings + whole_file.findings),
    }
}

/// Appends those strings of a list that the other does not hold yet.
pub fn merge_texts(out: &mut Vec<String>, more: &[String])
    ensures
        text::texts(final(out)@) == merged(text::texts(old(out)@), text::texts(more@)),
{
    broadcast use text::lemma_texts_push;

    let ghost first = text::texts(out@);
    let ghost second = text::texts(more@);
    let mut i: usize = 0;
    assert(merged(first, second.take(0)) =~= first);
    while i < more.len()
        invariant
            i <= more@.len(),
            second == text::texts(more@),
            text::texts(out@) == merged(first, second.take(i as int)),
        decreases more@.len() - i,
    {
        proof {
            let longer = second.take(i + 1);
            assert(longer.drop_last() =~= second.take(i as int));
            assert(longer.last() == more@[i as int]@);
        }
        if !list_contains(out.as_slice(), more[i].as_str()) {
            out.push(more[i].clone());
        }
        i += 1;
    }
    assert(second.take(more@.len() as int) =~= second);
}

/// Merges the results of the two scans.
pub fn combine(streaming: &ForensicResult, whole_file: &ForensicResult) -> (r: ForensicResult)
    requires
        i64::MIN <= streaming.risk_score + whole_file.risk_score,
    ensures
        r@ == combination(streaming@, whole_file@),
{
    let mut descriptions: Vec<String> = copy_list(streaming.descriptions.as_slice());
    merge_texts(&mut descriptions, whole_file.descriptions.as_slice());
    let mut findings: Vec<Finding> = copy_findings(streaming.findings.as_slice());
    append_all(&mut findings, copy_findings(whole_file.findings.as_slice()));
    sort_by_severity(&mut findings);
    let discount: i64 = whole_file.signature_discount;
    let withheld: i64 = if discount > 0 && any_serious(streaming.findings.as_slice()) {
        discount
    } else {
        0
    };
    let sum: i128 = streaming.risk_score as i128 + whole_file.risk_score as i128
        + withheld as i128;
    let risk_score: i64 = if sum > RISK_ONE as i128 {
        RISK_ONE
    } else {
        sum as i64
    };
    ForensicResult {
        header_valid: streaming.header_valid,
        extension_mismatch: streaming.extension_mismatch,
        dangerous_intent: streaming.dangerous_intent,
        structural_anomaly: whole_file.structural_anomaly,
        entropy_anomaly: whole_file.entropy_anomaly,
        pe_anomaly: whole_file.pe_anomaly,
        auto_execution: whole_file.auto_execution,
        signature_status: copy_status(&whole_file.signature_status),
        risk_score,
        signature_discount: discount - withheld,
        descriptions,
        findings,
    }
}

// ---------------------------------------------------------------------------
// Laws
// ---------------------------------------------------------------------------

/// Merging keeps the items that were there, in their place, and loses none of
/// the others.
pub proof fn law_merging_keeps_every_item<T>(first: Seq<T>, second: Seq<T>)
    ensures
        first.len() <= merged(first, second).len(),
        merged(first, second).take(first.len() as int) == first,
        forall|i: int| 0 <= i < second.len() ==> merged(first, second).contains(#[trigger] second[i]),
    decreases second.len(),
{
    let out = merged(first, second);
    if second.len() == 0 {
        assert(out.take(first.len() as int) =~= first);
    } else {
        let shorter = second.drop_last();
        let before = merged(first, shorter);
        law_merging_keeps_every_item(first, shorter);
        assert(out.take(first.len() as int) =~= before.take(first.len() as int));
        assert forall|i: int| 0 <= i < second.len() implies out.contains(#[trigger] second[i]) by {
            if i < shorter.len() {
                assert(before.contains(shorter[i]));
                let k = choose|k: int| 0 <= k < before.len() && before[k] == shorter[i];
                assert(out[k] == second[i]);
            } else if !before.contains(second.last()) {
                assert(out[before.len() as int] == second[i]);
            } else {
                let k = choose|k: int| 0 <= k < before.len() && before[k] == second.last();
                assert(out[k] == second[i]);
            }
        }
    }
}

/// Merging repeats no item: where the first list has no repetition,
/// neither has the result.
pub proof fn law_merging_repeats_no_item<T>(first: Seq<T>, second: Seq<T>)
    requires
        first.no_duplicates(),
    ensures
        merged(first, second).no_duplicates(),
    decreases second.len(),
{
    if second.len() > 0 {
        law_merging_repeats_no_item(first, second.drop_last());
    }
}

/// The two scans combine additively, up to certainty: the result is at least
/// as risky as either of them, and never more than certain. Only a discount that
/// is taken back comes on top.
pub proof fn law_independent_scans_add_up(streaming: ForensicModel, whole_file: ForensicModel)
    requires
        0 <= streaming.risk_score <= RISK_ONE,
        0 <= whole_file.risk_score <= RISK_ONE,
    ensures
        streaming.risk_score <= combination(streaming, whole_file).risk_score,
        whole_file.risk_score <= combination(streaming, whole_file).risk_score,
        0 <= combination(streaming, whole_file).risk_score <= RISK_ONE,
        combination(streaming, whole_file).risk_score < RISK_ONE ==> combination(
            streaming,
            whole_file,
        ).risk_score == streaming.risk_score + whole_file.risk_score + withheld(
            streaming,
            whole_file,
        ),
{
}

/// Combining keeps every finding of both scans, the worst first.
pub proof fn law_combining_keeps_the_findings(streaming: ForensicModel, whole_file: ForensicModel)
    ensures
        combination(streaming, whole_file).findings.to_multiset() == (streaming.findings
            + whole_file.findings).to_multiset(),
        finding::in_order(combination(streaming, whole_file).findings),
{
    finding::law_sorting_keeps_the_findings(streaming.findings + whole_file.findings);
    finding::law_sorted_findings_are_in_order(streaming.findings + whole_file.findings);
}

/// Overlapping signals do not compound: the score of a complete file never
/// exceeds the greatest of the six risks, each of which the score reaches
/// unless a signature is credited.
pub proof fn law_overlapping_analyses_do_not_compound(a: Analyses)
    ensures
        file_result(a).risk_score <= greatest_risk(a),
        greatest_risk(a) == finding::worst_risk(a.structure) || greatest_risk(a) == a.entropy.risk
            || greatest_risk(a) == finding::worst_risk(a.pe) || greatest_risk(a)
            == finding::worst_risk(a.archive) || greatest_risk(a) == finding::worst_risk(a.autoexec)
            || greatest_risk(a) == a.signature.risk,
        a.signature.trust_credit <= 0 ==> file_result(a).risk_score == greatest_risk(a),
{
    finding::law_worst_risk_is_not_negative(a.structure);
    signature::law_credit_is_capped(
        greatest_risk(a),
        a.signature.trust_credit,
        finding::ordered(all_findings(a)),
    );
}

/// A serious finding of any analysis is never discounted by a signature.
pub proof fn law_a_signature_does_not_rescue_a_serious_finding(a: Analyses, i: int)
    requires
        0 <= i < all_findings(a).len(),
        signature::serious(all_findings(a)[i]),
    ensures
        file_result(a).risk_score == greatest_risk(a),
{
    signature::lemma_sorting_keeps_the_serious(all_findings(a), i);
}

/// What the spans of a download showed is not discounted either: where it is
/// serious, a signature takes nothing off the risk of the complete file.
pub proof fn law_a_signature_does_not_rescue_a_serious_span(streaming: ForensicModel, a: Analyses)
    requires
        signature::has_serious(streaming.findings),
    ensures
        combination(streaming, file_result(a)).risk_score == capped_sum(
            streaming.risk_score,
            greatest_risk(a),
        ),
{
    finding::law_worst_risk_is_not_negative(a.structure);
    signature::law_credit_is_capped(
        greatest_risk(a),
        a.signature.trust_credit,
        finding::ordered(all_findings(a)),
    );
}

/// A mismatch between content and extension makes the first span's score at
/// least that of the mismatch.
pub proof fn law_a_mismatch_counts_in_full(
    chunk: Seq<u8>,
    filename: Seq<char>,
    context_prefix: Option<Seq<u8>>,
)
    ensures
        magic_bytes::header_check(chunk, filename).risk <= span_scan(
            chunk,
            filename,
            true,
            context_prefix,
        ).risk_score <= RISK_ONE,
{
    intent::law_intent_risk_is_bounded(intent::with_context(chunk, context_prefix));
}

/// Where every analysis gives a risk, so do all of them together.
proof fn lemma_the_greatest_is_a_risk(a: Analyses)
    requires
        0 <= finding::worst_risk(a.structure) <= RISK_ONE,
        0 <= a.entropy.risk <= RISK_ONE,
        0 <= finding::worst_risk(a.pe) <= RISK_ONE,
        0 <= finding::worst_risk(a.archive) <= RISK_ONE,
        0 <= finding::worst_risk(a.autoexec) <= RISK_ONE,
        0 <= a.signature.risk <= RISK_ONE,
    ensures
        0 <= file_result(a).risk_score <= RISK_ONE,
{
    let findings = finding::ordered(all_findings(a));
    assert(0 <= greatest_risk(a) <= RISK_ONE);
    signature::law_credit_is_capped(greatest_risk(a), a.signature.trust_credit, findings);
    signature::law_credit_never_goes_below_zero(
        greatest_risk(a),
        a.signature.trust_credit,
        findings,
    );
}

/// The score of a complete file is a risk, whatever the file, its name and its
/// signature.
pub proof fn law_the_score_of_a_file_is_bounded(
    data: Seq<u8>,
    filename: Seq<char>,
    overall: u64,
    windows: Seq<u64>,
    verified: Option<TrustModel>,
)
    ensures
        0 <= file_result(analyses(data, filename, overall, windows, verified)).risk_score
            <= RISK_ONE,
{
    let a = analyses(data, filename, overall, windows, verified);
    structure::law_structure_risks_are_bounded(data, filename);
    pe::law_image_risks_are_bounded(data);
    if let Some(entries) = archive::archive_entries(data) {
        archive::law_archive_risks_are_bounded(entries, filename);
    }
    autoexec::law_execution_risks_are_bounded(data, filename);
    entropy::law_entropy_risk_is_bounded(
        data,
        text::lowercase(text::claimed_extension(filename)),
        overall,
        windows,
    );
    signature::law_signature_risk_is_bounded(
        verified,
        pe::well_formed(data),
        text::tail_extension(filename),
    );
    finding::law_worst_risk_is_the_maximum(a.structure);
    finding::law_worst_risk_is_the_maximum(a.pe);
    finding::law_worst_risk_is_the_maximum(a.archive);
    finding::law_worst_risk_is_the_maximum(a.autoexec);
    lemma_the_greatest_is_a_risk(a);
}

/// Names of ordinary functions, tools and paths alone stay at or below their
/// ceiling, whether the type of the file is known or not.
pub proof fn law_names_alone_stay_below_their_ceiling(
    chunk: Seq<u8>,
    filename: Seq<char>,
    is_first_chunk: bool,
    context_prefix: Option<Seq<u8>>,
)
    requires
        !span_scan(chunk, filename, is_first_chunk, context_prefix).extension_mismatch,
        forall|k: int|
            0 <= k < intent::RED_FLAGS@.len() && #[trigger] intent::hit(
                intent::with_context(chunk, context_prefix),
                k,
            ) ==> intent::RED_FLAGS@[k].2 == intent::Weight::Indicative,
    ensures
        span_scan(chunk, filename, is_first_chunk, context_prefix).risk_score
            <= intent::MAX_INDICATIVE_RISK,
{
    intent::law_indicative_patterns_are_capped(intent::with_context(chunk, context_prefix));
}

/// The risk of a complete file is that of its worst analysis: none of the six is
/// left out, and nothing is added.
pub proof fn law_no_analysis_is_left_out(a: Analyses)
    ensures
        greatest_risk(a) >= finding::worst_risk(a.structure),
        greatest_risk(a) >= a.entropy.risk,
        greatest_risk(a) >= finding::worst_risk(a.pe),
        greatest_risk(a) >= finding::worst_risk(a.archive),
        greatest_risk(a) >= finding::worst_risk(a.autoexec),
        greatest_risk(a) >= a.signature.risk,
        file_result(a).risk_score + file_result(a).signature_discount == greatest_risk(a),
{
}

/// From the file to its score: before a signature takes anything off, the score
/// of a complete file is at least what each analysis of its bytes and its name
/// makes of it.
pub proof fn law_every_analysis_of_the_file_counts(
    data: Seq<u8>,
    filename: Seq<char>,
    overall: u64,
    windows: Seq<u64>,
    verified: Option<TrustModel>,
)
    ensures
        ({
            let r = file_result(analyses(data, filename, overall, windows, verified));
            let score = r.risk_score + r.signature_discount;
            &&& score >= finding::worst_risk(structure::structure_findings(data, filename))
            &&& score >= entropy::conclusion(
                data,
                text::lowercase(text::claimed_extension(filename)),
                overall,
                windows,
            ).risk
            &&& score >= finding::worst_risk(pe::image_findings(data))
            &&& score >= finding::worst_risk(archive::archive_findings(data, filename))
            &&& score >= finding::worst_risk(autoexec::execution_findings(data, filename))
            &&& score >= signature::signature_check(
                verified,
                pe::well_formed(data),
                text::tail_extension(filename),
            ).risk
        }),
{
    law_no_analysis_is_left_out(analyses(data, filename, overall, windows, verified));
}

/// From the file to the discount: only a signature that Windows trusts takes
/// anything off, no more than the ceiling, and nothing where a finding of any
/// analysis is critical or high.
pub proof fn law_only_a_trusted_signature_takes_anything_off(
    data: Seq<u8>,
    filename: Seq<char>,
    overall: u64,
    windows: Seq<u64>,
    verified: Option<TrustModel>,
)
    ensures
        ({
            let r = file_result(analyses(data, filename, overall, windows, verified));
            &&& 0 <= r.signature_discount <= 2_500
            &&& r.signature_discount > 0 ==> (verified matches Some(status) && (status is Trusted
                || status is TrustedByCatalog))
            &&& r.signature_discount > 0 ==> forall|i: int|
                0 <= i < r.findings.len() ==> (#[trigger] r.findings[i]).severity
                    == Severity::Medium || r.findings[i].severity == Severity::Low
        }),
{
    let a = analyses(data, filename, overall, windows, verified);
    let findings = finding::ordered(all_findings(a));
    finding::law_worst_risk_is_not_negative(a.structure);
    signature::law_credit_is_capped(greatest_risk(a), a.signature.trust_credit, findings);
    assert forall|i: int|
        0 <= i < findings.len() && file_result(a).signature_discount > 0 implies (
    #[trigger] findings[i]).severity == Severity::Medium || findings[i].severity
        == Severity::Low by {
        if findings[i].severity == Severity::Critical || findings[i].severity == Severity::High {
            signature::law_a_critical_or_high_finding_withholds_the_credit(
                greatest_risk(a),
                a.signature.trust_credit,
                findings,
                i,
            );
        }
    }
}

/// A signature that Windows trusts settles a weak case: where no finding of any
/// analysis is critical or high, it takes off all it is worth.
pub proof fn law_a_trusted_signature_settles_a_weak_case(
    data: Seq<u8>,
    filename: Seq<char>,
    overall: u64,
    windows: Seq<u64>,
    status: TrustModel,
)
    requires
        status is Trusted || status is TrustedByCatalog,
        signature::signable(pe::well_formed(data), text::tail_extension(filename)),
        ({
            let found = file_result(
                analyses(data, filename, overall, windows, Some(status)),
            ).findings;
            forall|i: int|
                0 <= i < found.len() ==> (#[trigger] found[i]).severity == Severity::Medium
                    || found[i].severity == Severity::Low
        }),
    ensures
        ({
            let a = analyses(data, filename, overall, windows, Some(status));
            file_result(a).risk_score == vstd::math::max(0, greatest_risk(a) - 2_500)
        }),
{
    let a = analyses(data, filename, overall, windows, Some(status));
    let found = file_result(a).findings;
    assert(found == finding::ordered(all_findings(a)));
    finding::law_worst_risk_is_not_negative(a.structure);
    assert forall|i: int| 0 <= i < found.len() implies (#[trigger] found[i]).severity
        == Severity::Medium || found[i].severity == Severity::Low by {}
    signature::law_credit_settles_a_weak_case(
        greatest_risk(a),
        a.signature.trust_credit,
        finding::ordered(all_findings(a)),
    );
}

/// No finding of an analysis is lost on the way to the result of a complete
/// file, none is added, and the worst stands first.
pub proof fn law_a_file_carries_every_finding(
    data: Seq<u8>,
    filename: Seq<char>,
    overall: u64,
    windows: Seq<u64>,
    verified: Option<TrustModel>,
)
    ensures
        ({
            let r = file_result(analyses(data, filename, overall, windows, verified));
            &&& r.findings.to_multiset() == (structure::structure_findings(data, filename)
                + pe::image_findings(data) + archive::archive_findings(data, filename)
                + autoexec::execution_findings(data, filename) + signature::signature_check(
                verified,
                pe::well_formed(data),
                text::tail_extension(filename),
            ).findings).to_multiset()
            &&& finding::in_order(r.findings)
        }),
{
    let a = analyses(data, filename, overall, windows, verified);
    finding::law_sorting_keeps_the_findings(all_findings(a));
    finding::law_sorted_findings_are_in_order(all_findings(a));
}

/// Each sign of a complete file is raised exactly where its analysis found
/// something.
pub proof fn law_each_sign_has_its_analysis(
    data: Seq<u8>,
    filename: Seq<char>,
    overall: u64,
    windows: Seq<u64>,
    verified: Option<TrustModel>,
)
    ensures
        ({
            let r = file_result(analyses(data, filename, overall, windows, verified));
            &&& r.structural_anomaly <==> structure::structure_findings(data, filename).len() > 0
                || archive::archive_findings(data, filename).len() > 0
            &&& r.entropy_anomaly <==> entropy::conclusion(
                data,
                text::lowercase(text::claimed_extension(filename)),
                overall,
                windows,
            ).flagged
            &&& r.pe_anomaly <==> pe::image_findings(data).len() > 0
            &&& r.auto_execution <==> autoexec::execution_findings(data, filename).len() > 0
            &&& r.signature_status == signature::signature_check(
                verified,
                pe::well_formed(data),
                text::tail_extension(filename),
            ).status
            &&& !r.header_valid && !r.extension_mismatch && !r.dangerous_intent
        }),
{
}

/// Behind other texts, a text is still in the list.
proof fn lemma_behind(before: Seq<Seq<char>>, list: Seq<Seq<char>>, after: Seq<Seq<char>>)
    ensures
        forall|i: int|
            0 <= i < list.len() ==> (before + list + after).contains(#[trigger] list[i]),
{
    let all = before + list + after;
    assert forall|i: int| 0 <= i < list.len() implies all.contains(#[trigger] list[i]) by {
        assert(all[before.len() + i] == list[i]);
    }
}

/// Whatever an analysis says of a complete file is described in its result, and
/// nothing else is.
pub proof fn law_every_analysis_is_described(a: Analyses)
    ensures
        ({
            let d = file_result(a).descriptions;
            &&& d.len() == a.structure.len() + a.entropy.flags.len() + a.pe.len() + a.archive.len()
                + a.autoexec.len() + a.signature.flags.len()
            &&& forall|i: int|
                0 <= i < a.entropy.flags.len() ==> d.contains(#[trigger] a.entropy.flags[i])
            &&& forall|i: int|
                0 <= i < a.signature.flags.len() ==> d.contains(#[trigger] a.signature.flags[i])
            &&& forall|f: FindingModel| #[trigger]
                a.structure.contains(f) ==> d.contains(finding::one_line_text(f))
            &&& forall|f: FindingModel| #[trigger]
                a.pe.contains(f) ==> d.contains(finding::one_line_text(f))
            &&& forall|f: FindingModel| #[trigger]
                a.archive.contains(f) ==> d.contains(finding::one_line_text(f))
            &&& forall|f: FindingModel| #[trigger]
                a.autoexec.contains(f) ==> d.contains(finding::one_line_text(f))
        }),
{
    let d = file_result(a).descriptions;
    let l1 = finding::one_line_texts(a.structure);
    let l2 = a.entropy.flags;
    let l3 = finding::one_line_texts(a.pe);
    let l4 = finding::one_line_texts(a.archive);
    let l5 = finding::one_line_texts(a.autoexec);
    let l6 = a.signature.flags;
    lemma_behind(Seq::empty(), l1, l2 + l3 + l4 + l5 + l6);
    assert(Seq::empty() + l1 + (l2 + l3 + l4 + l5 + l6) =~= d);
    lemma_behind(l1, l2, l3 + l4 + l5 + l6);
    assert(l1 + l2 + (l3 + l4 + l5 + l6) =~= d);
    lemma_behind(l1 + l2, l3, l4 + l5 + l6);
    assert(l1 + l2 + l3 + (l4 + l5 + l6) =~= d);
    lemma_behind(l1 + l2 + l3, l4, l5 + l6);
    assert(l1 + l2 + l3 + l4 + (l5 + l6) =~= d);
    lemma_behind(l1 + l2 + l3 + l4, l5, l6);
    lemma_behind(l1 + l2 + l3 + l4 + l5, l6, Seq::empty());
    assert(l1 + l2 + l3 + l4 + l5 + l6 + Seq::empty() =~= d);
    lemma_lines_described(d, a.structure);
    lemma_lines_described(d, a.pe);
    lemma_lines_described(d, a.archive);
    lemma_lines_described(d, a.autoexec);
}

/// Where every line is in a list, every finding is described there.
proof fn lemma_lines_described(d: Seq<Seq<char>>, list: Seq<FindingModel>)
    requires
        forall|i: int|
            0 <= i < finding::one_line_texts(list).len() ==> d.contains(
                #[trigger] finding::one_line_texts(list)[i],
            ),
    ensures
        forall|f: FindingModel| #[trigger]
            list.contains(f) ==> d.contains(finding::one_line_text(f)),
{
    assert forall|f: FindingModel| #[trigger] list.contains(f) implies d.contains(
        finding::one_line_text(f),
    ) by {
        let i = choose|i: int| 0 <= i < list.len() && list[i] == f;
        assert(finding::one_line_texts(list)[i] == finding::one_line_text(f));
    }
}

/// What the intent scan finds counts in the score of its span, whatever the
/// header says, and so does what the header gives. Beside a mismatch, or where
/// the intent is more than names can amount to, the two add up, to certainty at
/// most; otherwise the greater of them is the score.
pub proof fn law_header_and_intent_both_count(
    chunk: Seq<u8>,
    filename: Seq<char>,
    is_first_chunk: bool,
    context_prefix: Option<Seq<u8>>,
)
    ensures
        ({
            let score = span_scan(chunk, filename, is_first_chunk, context_prefix).risk_score;
            let found = intent::intent(
                match context_prefix {
                    Some(prefix) => prefix + chunk,
                    None => chunk,
                },
            ).risk;
            let header = if is_first_chunk {
                magic_bytes::header_check(chunk, filename).risk
            } else {
                0
            };
            let mismatch = is_first_chunk && magic_bytes::header_check(chunk, filename).mismatch;
            &&& score >= found
            &&& score >= header
            &&& score <= vstd::math::min(RISK_ONE as int, header + found)
            &&& mismatch || found > 3_500 ==> score == vstd::math::min(
                RISK_ONE as int,
                header + found,
            )
            &&& !mismatch && found <= 3_500 ==> score == vstd::math::max(header, found)
        }),
{
    intent::law_intent_risk_is_bounded(intent::with_context(chunk, context_prefix));
    magic_bytes::law_header_risk_is_bounded(chunk, filename);
}

/// A literal attack command in a span is never worth less than its weight,
/// whatever the type and the name of the file.
pub proof fn law_an_attack_command_weighs_in_any_span(
    chunk: Seq<u8>,
    filename: Seq<char>,
    is_first_chunk: bool,
    context_prefix: Option<Seq<u8>>,
    k: int,
)
    requires
        0 <= k < intent::RED_FLAGS@.len(),
        intent::RED_FLAGS@[k].2 == intent::Weight::Decisive,
        intent::hit(
            match context_prefix {
                Some(prefix) => prefix + chunk,
                None => chunk,
            },
            k,
        ),
    ensures
        span_scan(chunk, filename, is_first_chunk, context_prefix).risk_score
            >= intent::RED_FLAGS@[k].1,
        span_scan(chunk, filename, is_first_chunk, context_prefix).dangerous_intent,
{
    law_header_and_intent_both_count(chunk, filename, is_first_chunk, context_prefix);
    intent::law_decisive_patterns_keep_their_weight(
        intent::with_context(chunk, context_prefix),
        k,
    );
    intent::law_a_pattern_is_flagged(intent::with_context(chunk, context_prefix), k);
}

/// A span raises the signs that it shows and no others: the header is looked at
/// in the first span only, and intent in every span with what came before it,
/// which together are `data`. Each pattern that was found is described and has its finding, and so has a
/// mismatch, which is critical.
pub proof fn law_a_span_reports_what_it_shows(
    chunk: Seq<u8>,
    filename: Seq<char>,
    is_first_chunk: bool,
    context_prefix: Option<Seq<u8>>,
    data: Seq<u8>,
)
    requires
        data == match context_prefix {
            Some(prefix) => prefix + chunk,
            None => chunk,
        },
    ensures
        ({
            let r = span_scan(chunk, filename, is_first_chunk, context_prefix);
            let header = magic_bytes::header_check(chunk, filename);
            let found = intent::intent(data);
            let mismatch = is_first_chunk && header.mismatch;
            &&& r.header_valid <==> is_first_chunk && header.valid
            &&& r.extension_mismatch <==> mismatch
            &&& r.dangerous_intent <==> found.flagged
            &&& r.signature_discount == 0
            &&& r.findings.len() == found.flags.len() + if mismatch {
                1int
            } else {
                0
            }
            &&& mismatch ==> r.findings[0].severity == Severity::Critical && r.findings[0].risk
                == header.risk && r.findings[0].detail == header.description
            &&& forall|i: int|
                0 <= i < found.flags.len() ==> r.descriptions.contains(#[trigger] found.flags[i])
            &&& forall|i: int|
                0 <= i < found.flags.len() ==> (exists|j: int|
                    0 <= j < r.findings.len() && (#[trigger] r.findings[j]).detail
                        == #[trigger] found.flags[i] && r.findings[j].risk == found.risk
                        && r.findings[j].severity == finding::severity_band(found.risk))
            &&& is_first_chunk && header.description.len() > 0 ==> r.descriptions[0]
                == header.description
        }),
{
    let r = span_scan(chunk, filename, is_first_chunk, context_prefix);
    let header = magic_bytes::header_check(chunk, filename);
    let found = intent::intent(data);
    assert(data == intent::with_context(chunk, context_prefix));
    intent::law_intent_risk_is_bounded(intent::with_context(chunk, context_prefix));
    magic_bytes::law_header_risk_is_bounded(chunk, filename);
    magic_bytes::law_a_header_is_described(chunk, filename);
    let shift = if is_first_chunk && header.mismatch {
        1int
    } else {
        0
    };
    let lead = if is_first_chunk {
        1int
    } else {
        0
    };
    assert forall|i: int| 0 <= i < found.flags.len() implies r.descriptions.contains(
        #[trigger] found.flags[i],
    ) by {
        assert(r.descriptions[lead + i] == found.flags[i]);
    }
    assert forall|i: int| 0 <= i < found.flags.len() implies (exists|j: int|
        0 <= j < r.findings.len() && (#[trigger] r.findings[j]).detail == #[trigger] found.flags[i]
            && r.findings[j].risk == found.risk && r.findings[j].severity
            == finding::severity_band(found.risk)) by {
        assert(r.findings[shift + i].detail == found.flags[i]);
    }
}

/// The spans say what the file claims to be and what it is up to, the complete
/// file what it is built of and who signed it; both together say both, and each
/// description once.
pub proof fn law_both_scans_keep_their_signs(streaming: ForensicModel, whole_file: ForensicModel)
    ensures
        ({
            let r = combination(streaming, whole_file);
            &&& r.header_valid == streaming.header_valid
            &&& r.extension_mismatch == streaming.extension_mismatch
            &&& r.dangerous_intent == streaming.dangerous_intent
            &&& r.structural_anomaly == whole_file.structural_anomaly
            &&& r.entropy_anomaly == whole_file.entropy_anomaly
            &&& r.pe_anomaly == whole_file.pe_anomaly
            &&& r.auto_execution == whole_file.auto_execution
            &&& r.signature_status == whole_file.signature_status
            &&& forall|i: int|
                0 <= i < streaming.descriptions.len() ==> r.descriptions[i]
                    == #[trigger] streaming.descriptions[i]
            &&& forall|i: int|
                0 <= i < whole_file.descriptions.len() ==> r.descriptions.contains(
                    #[trigger] whole_file.descriptions[i],
                )
        }),
{
    let r = combination(streaming, whole_file);
    law_merging_keeps_every_item(streaming.descriptions, whole_file.descriptions);
    assert forall|i: int| 0 <= i < streaming.descriptions.len() implies r.descriptions[i]
        == #[trigger] streaming.descriptions[i] by {
        assert(r.descriptions.take(streaming.descriptions.len() as int)[i] == r.descriptions[i]);
    }
}

/// The risks of the two scans add up to the risk of the download, to certainty
/// at most. Where a span showed something critical or high, the discount of a
/// signature is added back; otherwise it stands.
pub proof fn law_the_risks_of_both_scans_add_up(
    streaming: ForensicModel,
    whole_file: ForensicModel,
)
    requires
        whole_file.signature_discount >= 0,
    ensures
        (exists|i: int|
            0 <= i < streaming.findings.len() && ((#[trigger] streaming.findings[i]).severity
                == Severity::Critical || streaming.findings[i].severity == Severity::High))
            ==> combination(streaming, whole_file).risk_score == vstd::math::min(
            RISK_ONE as int,
            streaming.risk_score + whole_file.risk_score + whole_file.signature_discount,
        ),
        (forall|i: int|
            0 <= i < streaming.findings.len() ==> (#[trigger] streaming.findings[i]).severity
                == Severity::Medium || streaming.findings[i].severity == Severity::Low)
            ==> combination(streaming, whole_file).risk_score == vstd::math::min(
            RISK_ONE as int,
            streaming.risk_score + whole_file.risk_score,
        ),
{
    if exists|i: int|
        0 <= i < streaming.findings.len() && ((#[trigger] streaming.findings[i]).severity
            == Severity::Critical || streaming.findings[i].severity == Severity::High) {
        let i = choose|i: int|
            0 <= i < streaming.findings.len() && ((#[trigger] streaming.findings[i]).severity
                == Severity::Critical || streaming.findings[i].severity == Severity::High);
        assert(signature::serious(streaming.findings[i]));
    }
}

/// A merged list holds what either list holds, and nothing else.
pub proof fn law_merging_gathers_both<T>(first: Seq<T>, second: Seq<T>, item: T)
    ensures
        merged(first, second).contains(item) <==> first.contains(item) || second.contains(item),
    decreases second.len(),
{
    let all = merged(first, second);
    if second.len() > 0 {
        let shorter = second.drop_last();
        let before = merged(first, shorter);
        law_merging_gathers_both(first, shorter, item);
        assert(second[second.len() - 1] == second.last());
        if second.contains(item) {
            let i = choose|i: int| 0 <= i < second.len() && second[i] == item;
            if i < shorter.len() {
                assert(shorter[i] == item);
            }
        }
        if shorter.contains(item) {
            let i = choose|i: int| 0 <= i < shorter.len() && shorter[i] == item;
            assert(second[i] == item);
        }
        if !before.contains(second.last()) {
            assert(all == before.push(second.last()));
            assert(all[before.len() as int] == second.last());
            if before.contains(item) {
                let i = choose|i: int| 0 <= i < before.len() && before[i] == item;
                assert(all[i] == item);
            }
            if all.contains(item) {
                let i = choose|i: int| 0 <= i < all.len() && all[i] == item;
                if i < before.len() {
                    assert(before[i] == item);
                }
            }
        }
    }
}

} // verus!
