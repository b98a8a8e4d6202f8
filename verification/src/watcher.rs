//! Incremental scanning of a download while the browser is still writing it.
//!
//! The browser writes into a quarantine directory. The caller reads what has
//! arrived from the offset reached so far and hands each span over; where the
//! running risk crosses the block threshold the download is stopped before it
//! is complete. Of the bytes only a bounded tail is kept, so that a pattern
//! that is split across spans is still found.
use crate::config::Config;
use crate::numbers;
use crate::numbers::{push_decimal, push_risk, RISK_ONE};
use crate::risk;
use crate::risk::aggregate_risk;
use crate::scanner;
use crate::scanner::finding;
use crate::scanner::intent;
use crate::scanner::magic_bytes;
use crate::scanner::finding::{copy_findings, Finding, FindingModel};
use crate::scanner::{deep_forensic_scan, merge_texts};
use crate::sequences;
use crate::sequences::slice_to_vec;
use crate::text;
use crate::text::{copy_list, join, same};
use vstd::prelude::*;

verus! {

/// How many of the bytes scanned last are kept for the next span.
pub const TRAILING_CONTEXT_BYTES: usize = 512;

/// How long to wait between two passes, in milliseconds.
pub const POLL_INTERVAL_MILLIS: u64 = 100;

/// What the browser appends to a name while the download is in flight.
pub const PARTIAL_SUFFIX: &'static str = ".crdownload";

// ---------------------------------------------------------------------------
// Where the download is
// ---------------------------------------------------------------------------

/// Where the download lives on disk. In flight it has the partial name; it is
/// renamed to the final name on completion.
#[derive(Debug)]
pub struct WatchTarget {
    final_path: String,
    partial_path: String,
}

impl View for WatchTarget {
    type V = Seq<char>;

    closed spec fn view(&self) -> Seq<char> {
        self.final_path@
    }
}

impl WatchTarget {
    #[verifier::type_invariant]
    spec fn names_belong_together(self) -> bool {
        self.partial_path@ == self.final_path@ + PARTIAL_SUFFIX@
    }

    /// The target with this final name.
    pub fn new(final_path: &str) -> (r: Self)
        ensures
            r@ == final_path@,
    {
        let mut partial_path: String = final_path.to_string();
        partial_path.append(PARTIAL_SUFFIX);
        WatchTarget { final_path: final_path.to_string(), partial_path }
    }

    /// The name that the download has once it is complete.
    pub fn final_path(&self) -> (r: &str)
        ensures
            r@ == self@,
    {
        self.final_path.as_str()
    }

    /// The name that the download has while it is in flight.
    pub fn partial_path(&self) -> (r: &str)
        ensures
            r@ == self@ + PARTIAL_SUFFIX@,
    {
        proof {
            use_type_invariant(self);
        }
        self.partial_path.as_str()
    }

    /// The name under which the download stands on disk, if either does.
    pub fn current(&self, partial_exists: bool, final_exists: bool) -> (r: Option<&str>)
        ensures
            r is Some <==> partial_exists || final_exists,
            r matches Some(p) ==> p@ == if partial_exists {
                self@ + PARTIAL_SUFFIX@
            } else {
                self@
            },
    {
        if partial_exists {
            Some(self.partial_path())
        } else if final_exists {
            Some(self.final_path())
        } else {
            None
        }
    }

    /// Whether the browser has renamed the download, which ends it.
    pub fn looks_complete(&self, partial_exists: bool, final_exists: bool) -> (r: bool)
        ensures
            r == (!partial_exists && final_exists),
    {
        !partial_exists && final_exists
    }
}

// ---------------------------------------------------------------------------
// Errors of the file system
// ---------------------------------------------------------------------------

/// What kind of error the file system gave.
#[derive(Debug, Clone, Copy, PartialEq, Eq, Structural)]
pub enum IoKind {
    NotFound,
    PermissionDenied,
    Interrupted,
    Other,
}

/// An error of the file system.
#[derive(Debug, Clone, Copy, PartialEq, Eq, Structural)]
pub struct IoFault {
    pub kind: IoKind,
    /// The number that Windows gave; none on other systems.
    pub windows_code: Option<i32>,
}

/// Another security product has quarantined the file.
pub const ERROR_VIRUS_INFECTED: i32 = 225;

/// Another process holds the file open and does not share it right now.
pub const ERROR_SHARING_VIOLATION: i32 = 32;

/// A lock is held on the region.
pub const ERROR_LOCK_VIOLATION: i32 = 33;

/// The writer is busy: trying again shortly is all there is to do.
pub open spec fn transient(fault: IoFault) -> bool {
    ||| fault.kind == IoKind::NotFound
    ||| fault.kind == IoKind::PermissionDenied
    ||| fault.kind == IoKind::Interrupted
    ||| fault.windows_code == Some(ERROR_SHARING_VIOLATION)
    ||| fault.windows_code == Some(ERROR_LOCK_VIOLATION)
}

/// Another security product was there first.
pub open spec fn infected(fault: IoFault) -> bool {
    fault.windows_code == Some(ERROR_VIRUS_INFECTED)
}

/// Whether the error says that the writer is busy, rather than a failure.
pub fn is_transient_io(fault: &IoFault) -> (r: bool)
    ensures
        r == transient(*fault),
{
    if fault.kind == IoKind::NotFound || fault.kind == IoKind::PermissionDenied || fault.kind
        == IoKind::Interrupted {
        return true;
    }
    match fault.windows_code {
        Some(code) => code == ERROR_SHARING_VIOLATION || code == ERROR_LOCK_VIOLATION,
        None => false,
    }
}

/// What one pass over the newly arrived bytes came to.
#[derive(Debug)]
pub enum ScanStep {
    /// So many bytes were scanned, none where the writer is slow, of a file
    /// that had this length.
    Scanned { fresh: u64, length: u64 },
    /// There was no file to look at, or the writer was busy with it.
    Busy,
    /// Another security product took the file away.
    ExternallyQuarantined(String),
}

/// What a step says.
pub enum StepModel {
    Scanned { fresh: nat, length: nat },
    Busy,
    ExternallyQuarantined(Seq<char>),
}

impl View for ScanStep {
    type V = StepModel;

    open spec fn view(&self) -> StepModel {
        match self {
            ScanStep::Scanned { fresh, length } => StepModel::Scanned {
                fresh: *fresh as nat,
                length: *length as nat,
            },
            ScanStep::Busy => StepModel::Busy,
            ScanStep::ExternallyQuarantined(s) => StepModel::ExternallyQuarantined(s@),
        }
    }
}

/// What a pass comes to, or why it failed.
pub open spec fn step_view(r: Result<ScanStep, String>) -> Result<StepModel, Seq<char>> {
    match r {
        Ok(s) => Ok(s@),
        Err(e) => Err(e@),
    }
}

/// What a pass comes to where the file could not be opened.
pub open spec fn open_failure(fault: IoFault, path: Seq<char>) -> Result<StepModel, Seq<char>> {
    if infected(fault) {
        Ok(
            StepModel::ExternallyQuarantined(
                "another security product (likely Windows Defender) quarantined "@ + path
                    + " before Aegis could scan it"@,
            ),
        )
    } else if transient(fault) {
        Ok(StepModel::Busy)
    } else {
        Err("open quarantine file "@ + path)
    }
}

/// What a pass comes to where the file could not be opened. A busy writer is
/// no failure: the next pass tries again.
pub fn open_failed(fault: &IoFault, path: &str) -> (r: Result<ScanStep, String>)
    ensures
        step_view(r) == open_failure(*fault, path@),
{
    if let Some(code) = fault.windows_code {
        if code == ERROR_VIRUS_INFECTED {
            let mut detail: String =
                "another security product (likely Windows Defender) quarantined ".to_string();
            detail.append(path);
            detail.append(" before Aegis could scan it");
            return Ok(ScanStep::ExternallyQuarantined(detail));
        }
    }
    if is_transient_io(fault) {
        return Ok(ScanStep::Busy);
    }
    let mut words: String = "open quarantine file ".to_string();
    words.append(path);
    Err(words)
}

/// What a pass comes to where the size of the file could not be told.
pub open spec fn stat_failure(fault: IoFault, path: Seq<char>) -> Result<StepModel, Seq<char>> {
    if transient(fault) {
        Ok(StepModel::Busy)
    } else {
        Err("stat quarantine file "@ + path)
    }
}

/// What a pass comes to where the size of the file could not be told.
pub fn stat_failed(fault: &IoFault, path: &str) -> (r: Result<ScanStep, String>)
    ensures
        step_view(r) == stat_failure(*fault, path@),
{
    if is_transient_io(fault) {
        return Ok(ScanStep::Busy);
    }
    let mut words: String = "stat quarantine file ".to_string();
    words.append(path);
    Err(words)
}

/// What is said where the offset could not be reached.
pub const SEEK_FAILED: &'static str = "seek to last scanned offset";

/// What is said where a span could not be read.
pub const READ_FAILED: &'static str = "read span from quarantine file";

// ---------------------------------------------------------------------------
// The watcher
// ---------------------------------------------------------------------------

/// Outcome of watching a download to its end.
#[derive(Debug)]
pub struct WatchOutcome {
    /// Highest risk observed across the whole file.
    pub risk_score: i64,
    /// Every distinct signal raised, in order first seen.
    pub descriptions: Vec<String>,
    /// Every distinct finding, in order first seen.
    pub findings: Vec<Finding>,
    /// Total bytes scanned.
    pub bytes_scanned: u64,
    /// The magic bytes identified the file type.
    pub header_valid: bool,
    /// The detected type contradicts the claimed extension.
    pub extension_mismatch: bool,
    /// The intent scanner flagged something.
    pub dangerous_intent: bool,
}

/// What an outcome says.
pub struct OutcomeModel {
    pub risk_score: int,
    pub descriptions: Seq<Seq<char>>,
    pub findings: Seq<FindingModel>,
    pub bytes_scanned: nat,
    pub header_valid: bool,
    pub extension_mismatch: bool,
    pub dangerous_intent: bool,
}

impl View for WatchOutcome {
    type V = OutcomeModel;

    open spec fn view(&self) -> OutcomeModel {
        OutcomeModel {
            risk_score: self.risk_score as int,
            descriptions: text::texts(self.descriptions@),
            findings: finding::models(self.findings@),
            bytes_scanned: self.bytes_scanned as nat,
            header_valid: self.header_valid,
            extension_mismatch: self.extension_mismatch,
            dangerous_intent: self.dangerous_intent,
        }
    }
}

impl Clone for WatchOutcome {
    fn clone(&self) -> (r: Self)
        ensures
            r@ == self@,
    {
        WatchOutcome {
            risk_score: self.risk_score,
            descriptions: copy_list(self.descriptions.as_slice()),
            findings: copy_findings(self.findings.as_slice()),
            bytes_scanned: self.bytes_scanned,
            header_valid: self.header_valid,
            extension_mismatch: self.extension_mismatch,
            dangerous_intent: self.dangerous_intent,
        }
    }
}

/// Scans a growing file, span by span.
#[derive(Debug)]
pub struct DownloadWatcher {
    target: WatchTarget,
    filename: String,
    offset: u64,
    trailing: Vec<u8>,
    chunk_scores: Vec<i64>,
    descriptions: Vec<String>,
    findings: Vec<Finding>,
    is_first_span: bool,
    header_valid: bool,
    extension_mismatch: bool,
    dangerous_intent: bool,
}

/// What a watcher has seen.
pub struct WatcherModel {
    /// The final name of the download.
    pub target: Seq<char>,
    /// The name that the download is for.
    pub filename: Seq<char>,
    /// How many bytes have been scanned.
    pub offset: nat,
    /// The bytes scanned last, as far as they are kept.
    pub trailing: Seq<u8>,
    /// The risk of each span.
    pub scores: Seq<i64>,
    /// The distinct descriptions, in order first seen.
    pub descriptions: Seq<Seq<char>>,
    /// The distinct findings, in order first seen.
    pub findings: Seq<FindingModel>,
    /// No span has been scanned yet.
    pub is_first_span: bool,
    pub header_valid: bool,
    pub extension_mismatch: bool,
    pub dangerous_intent: bool,
}

/// What a watcher has seen at its start.
pub open spec fn unstarted(target: Seq<char>, filename: Seq<char>) -> WatcherModel {
    WatcherModel {
        target,
        filename,
        offset: 0,
        trailing: Seq::empty(),
        scores: Seq::empty(),
        descriptions: Seq::empty(),
        findings: Seq::empty(),
        is_first_span: true,
        header_valid: false,
        extension_mismatch: false,
        dangerous_intent: false,
    }
}

/// The end of some bytes that is kept.
pub open spec fn tail(data: Seq<u8>) -> Seq<u8> {
    if data.len() <= TRAILING_CONTEXT_BYTES {
        data
    } else {
        data.skip(data.len() - TRAILING_CONTEXT_BYTES)
    }
}

/// What scanning a span gives, for a watcher that has seen `m`.
pub open spec fn scanned(m: WatcherModel, span: Seq<u8>) -> scanner::ForensicModel {
    scanner::span_scan(
        span,
        m.filename,
        m.is_first_span,
        if m.trailing.len() == 0 {
            None
        } else {
            Some(m.trailing)
        },
    )
}

/// What a watcher has seen after one span more. A signal that a span raises
/// stays raised.
pub open spec fn absorbed(m: WatcherModel, span: Seq<u8>) -> WatcherModel {
    let result = scanned(m, span);
    WatcherModel {
        target: m.target,
        filename: m.filename,
        offset: m.offset + span.len(),
        trailing: tail(m.trailing + span),
        scores: m.scores.push(result.risk_score as i64),
        descriptions: scanner::merged(m.descriptions, result.descriptions),
        findings: scanner::merged(m.findings, result.findings),
        is_first_span: false,
        header_valid: m.header_valid || result.header_valid,
        extension_mismatch: m.extension_mismatch || result.extension_mismatch,
        dangerous_intent: m.dangerous_intent || result.dangerous_intent,
    }
}

/// Whether two findings say the same.
fn same_finding(a: &Finding, b: &Finding) -> (r: bool)
    ensures
        r == (a@ == b@),
{
    a.severity == b.severity && a.risk == b.risk && same(a.title.as_str(), b.title.as_str()) && same(
        a.detail.as_str(),
        b.detail.as_str(),
    ) && same(a.why.as_str(), b.why.as_str())
}

/// Whether a list holds a finding that says the same.
fn holds_finding(list: &[Finding], f: &Finding) -> (r: bool)
    ensures
        r == finding::models(list@).contains(f@),
{
    let mut i: usize = 0;
    while i < list.len()
        invariant
            i <= list@.len(),
            forall|j: int| 0 <= j < i ==> (#[trigger] list@[j])@ != f@,
        decreases list@.len() - i,
    {
        if same_finding(&list[i], f) {
            assert(finding::models(list@)[i as int] == f@);
            return true;
        }
        i += 1;
    }
    assert forall|j: int| 0 <= j < list@.len() implies finding::models(list@)[j] != f@ by {
        assert(list@[j]@ != f@);
    }
    false
}

/// Appends those findings of a list that the other does not hold yet.
fn gather(out: &mut Vec<Finding>, more: &[Finding])
    ensures
        finding::models(final(out)@) == scanner::merged(
            finding::models(old(out)@),
            finding::models(more@),
        ),
{
    broadcast use finding::lemma_models_push;

    let ghost first = finding::models(out@);
    let ghost second = finding::models(more@);
    let mut i: usize = 0;
    assert(scanner::merged(first, second.take(0)) =~= first);
    while i < more.len()
        invariant
            i <= more@.len(),
            second == finding::models(more@),
            finding::models(out@) == scanner::merged(first, second.take(i as int)),
        decreases more@.len() - i,
    {
        proof {
            let longer = second.take(i + 1);
            assert(longer.drop_last() =~= second.take(i as int));
            assert(longer.last() == more@[i as int]@);
        }
        if !holds_finding(out.as_slice(), &more[i]) {
            out.push(more[i].clone());
        }
        i += 1;
    }
    assert(second.take(more@.len() as int) =~= second);
}

/// The end of what was kept and a span behind it.
fn keep_tail(kept: &[u8], span: &[u8]) -> (r: Vec<u8>)
    ensures
        r@ == tail(kept@ + span@),
{
    let k: usize = kept.len();
    let n: usize = span.len();
    if n >= TRAILING_CONTEXT_BYTES {
        let r = slice_to_vec(span, n - TRAILING_CONTEXT_BYTES, n);
        assert(r@ =~= tail(kept@ + span@));
        return r;
    }
    let room: usize = TRAILING_CONTEXT_BYTES - n;
    let from: usize = if k <= room {
        0
    } else {
        k - room
    };
    let mut r: Vec<u8> = slice_to_vec(kept, from, k);
    let mut more: Vec<u8> = slice_to_vec(span, 0, n);
    assert(more@ =~= span@);
    r.append(&mut more);
    assert(r@ =~= tail(kept@ + span@));
    r
}

/// How many bytes to read next: up to the size of the file, and no more than a
/// chunk.
pub open spec fn want(offset: nat, len: nat, chunk_size: nat) -> nat {
    if len <= offset {
        0
    } else if len - offset < chunk_size {
        (len - offset) as nat
    } else {
        chunk_size
    }
}

/// What came of a read of the next span.
pub enum ReadOutcome<'a> {
    /// These bytes; none where the writer has not flushed yet.
    Bytes(&'a [u8]),
    Failed(IoFault),
}

/// What to do after a read.
#[derive(Debug, Clone, Copy, PartialEq, Eq, Structural)]
pub enum ReadStep {
    /// Read the next span.
    Continue,
    /// Come back in the next pass.
    Done,
    /// The pass has failed.
    Failed,
}

/// What to do after a read.
pub open spec fn read_step(outcome: ReadOutcome<'_>) -> ReadStep {
    match outcome {
        ReadOutcome::Bytes(span) => if span@.len() == 0 {
            ReadStep::Done
        } else {
            ReadStep::Continue
        },
        ReadOutcome::Failed(fault) => if transient(fault) {
            ReadStep::Done
        } else {
            ReadStep::Failed
        },
    }
}

impl View for DownloadWatcher {
    type V = WatcherModel;

    closed spec fn view(&self) -> WatcherModel {
        WatcherModel {
            target: self.target@,
            filename: self.filename@,
            offset: self.offset as nat,
            trailing: self.trailing@,
            scores: self.chunk_scores@,
            descriptions: text::texts(self.descriptions@),
            findings: finding::models(self.findings@),
            is_first_span: self.is_first_span,
            header_valid: self.header_valid,
            extension_mismatch: self.extension_mismatch,
            dangerous_intent: self.dangerous_intent,
        }
    }
}

impl DownloadWatcher {
    /// A watcher of a download for the file name `filename`.
    pub fn new(target: WatchTarget, filename: &str) -> (r: Self)
        ensures
            r@ == unstarted(target@, filename@),
    {
        let r = DownloadWatcher {
            target,
            filename: filename.to_string(),
            offset: 0,
            trailing: Vec::new(),
            chunk_scores: Vec::new(),
            descriptions: Vec::new(),
            findings: Vec::new(),
            is_first_span: true,
            header_valid: false,
            extension_mismatch: false,
            dangerous_intent: false,
        };
        assert(text::texts(r.descriptions@) =~= Seq::<Seq<char>>::empty());
        assert(finding::models(r.findings@) =~= Seq::<FindingModel>::empty());
        r
    }

    /// Where the download is.
    pub fn target(&self) -> (r: &WatchTarget)
        ensures
            r@ == self@.target,
    {
        &self.target
    }

    /// The risk of everything scanned so far.
    pub fn current_risk(&self) -> (r: i64)
        ensures
            r == risk::aggregate(self@.scores),
    {
        aggregate_risk(self.chunk_scores.as_slice())
    }

    /// How many bytes have been scanned.
    pub fn bytes_scanned(&self) -> (r: u64)
        ensures
            r == self@.offset,
    {
        self.offset
    }

    /// The distinct descriptions so far.
    pub fn descriptions(&self) -> (r: &[String])
        ensures
            text::texts(r@) == self@.descriptions,
    {
        self.descriptions.as_slice()
    }

    /// The distinct findings so far.
    pub fn findings(&self) -> (r: &[Finding])
        ensures
            finding::models(r@) == self@.findings,
    {
        self.findings.as_slice()
    }

    /// The bytes scanned last, as far as they are kept.
    pub fn trailing(&self) -> (r: &[u8])
        ensures
            r@ == self@.trailing,
    {
        self.trailing.as_slice()
    }

    /// How many bytes to read next, of a file that has `len`.
    pub fn next_read(&self, len: u64, chunk_size: usize) -> (r: usize)
        ensures
            r == want(self@.offset, len as nat, chunk_size as nat),
            r > 0 ==> self@.offset + r <= len,
    {
        if len <= self.offset {
            return 0;
        }
        let left: u64 = len - self.offset;
        if left < chunk_size as u64 {
            left as usize
        } else {
            chunk_size
        }
    }

    /// Scans the span that follows what has been scanned so far.
    pub fn absorb(&mut self, span: &[u8])
        requires
            old(self)@.offset + span@.len() <= u64::MAX,
        ensures
            final(self)@ == absorbed(old(self)@, span@),
    {
        let context = if self.trailing.len() == 0 {
            None
        } else {
            Some(self.trailing.as_slice())
        };
        let result = deep_forensic_scan(span, self.filename.as_str(), self.is_first_span, context);
        self.chunk_scores.push(result.risk_score);
        self.header_valid = self.header_valid || result.header_valid;
        self.extension_mismatch = self.extension_mismatch || result.extension_mismatch;
        self.dangerous_intent = self.dangerous_intent || result.dangerous_intent;
        merge_texts(&mut self.descriptions, result.descriptions.as_slice());
        gather(&mut self.findings, result.findings.as_slice());
        let n: usize = span.len();
        self.trailing = keep_tail(self.trailing.as_slice(), span);
        self.is_first_span = false;
        self.offset = self.offset + n as u64;
    }

    /// Takes in what came of reading the next span.
    pub fn after_read(&mut self, outcome: ReadOutcome<'_>) -> (r: ReadStep)
        requires
            outcome matches ReadOutcome::Bytes(span) ==> old(self)@.offset + span@.len()
                <= u64::MAX,
        ensures
            r == read_step(outcome),
            final(self)@ == match outcome {
                ReadOutcome::Bytes(span) if span@.len() > 0 => absorbed(old(self)@, span@),
                _ => old(self)@,
            },
    {
        match outcome {
            ReadOutcome::Bytes(span) => {
                if span.len() == 0 {
                    ReadStep::Done
                } else {
                    self.absorb(span);
                    ReadStep::Continue
                }
            },
            ReadOutcome::Failed(fault) => if is_transient_io(&fault) {
                ReadStep::Done
            } else {
                ReadStep::Failed
            },
        }
    }
}

// ---------------------------------------------------------------------------
// Decisions
// ---------------------------------------------------------------------------

/// How watching a download ends.
#[derive(Debug)]
pub enum WatchEvent {
    /// The download must be stopped now.
    EarlyBlock { risk_score: i64, reason: String, findings: Vec<Finding> },
    /// The download is complete and was scanned to its end.
    Completed(Box<WatchOutcome>),
}

/// What an event says.
pub enum EventModel {
    EarlyBlock { risk_score: int, reason: Seq<char>, findings: Seq<FindingModel> },
    Completed(OutcomeModel),
}

impl View for WatchEvent {
    type V = EventModel;

    open spec fn view(&self) -> EventModel {
        match self {
            WatchEvent::EarlyBlock { risk_score, reason, findings } => EventModel::EarlyBlock {
                risk_score: *risk_score as int,
                reason: reason@,
                findings: finding::models(findings@),
            },
            WatchEvent::Completed(outcome) => EventModel::Completed((**outcome)@),
        }
    }
}

/// What to do after a pass.
#[derive(Debug)]
pub enum WatchAction {
    /// Watching is over.
    Finish(WatchEvent),
    /// The download is complete: scan what may be left of it, then conclude.
    Sweep,
    /// Wait for the poll interval, then make the next pass.
    Wait,
}

/// What an action says.
pub enum ActionModel {
    Finish(EventModel),
    Sweep,
    Wait,
}

impl View for WatchAction {
    type V = ActionModel;

    open spec fn view(&self) -> ActionModel {
        match self {
            WatchAction::Finish(event) => ActionModel::Finish(event@),
            WatchAction::Sweep => ActionModel::Sweep,
            WatchAction::Wait => ActionModel::Wait,
        }
    }
}

/// When a watch began and when the download last grew, in nanoseconds.
#[derive(Debug, Clone, Copy)]
pub struct WatchClock {
    pub started: u128,
    pub last_growth: u128,
}

/// Nanoseconds in a second.
pub const NANOS: u128 = 1_000_000_000;

/// More than so many seconds lie between two moments.
pub open spec fn exceeded(since: u128, now: u128, secs: u64) -> bool {
    now - since > secs * NANOS
}

/// The clock after a pass: growth sets it.
pub open spec fn clock_after(clock: WatchClock, step: StepModel, now: u128) -> WatchClock {
    match step {
        StepModel::Scanned { fresh, .. } if fresh > 0 => WatchClock {
            started: clock.started,
            last_growth: now,
        },
        _ => clock,
    }
}

/// The block where another security product was there first.
pub open spec fn external_block(m: WatcherModel, detail: Seq<char>) -> EventModel {
    EventModel::EarlyBlock {
        risk_score: RISK_ONE as int,
        reason: "Blocked by another security product: "@ + detail,
        findings: m.findings,
    }
}

/// A block at the risk reached so far.
pub open spec fn block(m: WatcherModel, reason: Seq<char>) -> EventModel {
    EventModel::EarlyBlock { risk_score: risk::aggregate(m.scores), reason, findings: m.findings }
}

/// Why a download that is too large is blocked.
pub open spec fn size_reason(m: WatcherModel, config: Config) -> Seq<char> {
    "Download exceeded maximum allowed size ("@ + numbers::decimal(m.offset) + " bytes > "@
        + numbers::decimal(config.chunking.max_download_bytes as nat) + " limit)"@
}

/// Why a download that is too risky is blocked.
pub open spec fn risk_reason(m: WatcherModel, config: Config) -> Seq<char> {
    "Risk score "@ + numbers::risk_text(risk::aggregate(m.scores)) + " crossed block threshold "@
        + numbers::risk_text(config.risk.block_threshold as int) + " after "@ + numbers::decimal(
        m.offset,
    ) + " bytes. Signals: "@ + text::joined(m.descriptions, "; "@)
}

/// Why a download that has stopped growing is blocked.
pub open spec fn stall_reason(config: Config) -> Seq<char> {
    "Download stalled: no new bytes for "@ + numbers::decimal(
        config.chunking.per_chunk_timeout_secs as nat,
    ) + "s"@
}

/// Why a download that takes too long is blocked.
pub open spec fn timeout_reason(config: Config) -> Seq<char> {
    "Download exceeded total transfer timeout of "@ + numbers::decimal(
        config.chunking.total_transfer_timeout_secs as nat,
    ) + "s"@
}

/// The download has grown.
pub open spec fn grown(step: StepModel) -> bool {
    step matches StepModel::Scanned { fresh, .. } && fresh > 0
}

/// What to do after a pass that came to `step`: where the download has grown,
/// its size and its risk are held against their limits; a download that has
/// been renamed is swept; one that stalls or takes too long is blocked.
pub open spec fn verdict_on_pass(
    m: WatcherModel,
    config: Config,
    clock: WatchClock,
    step: StepModel,
    complete: bool,
    now: u128,
) -> ActionModel {
    if let StepModel::ExternallyQuarantined(detail) = step {
        ActionModel::Finish(external_block(m, detail))
    } else if grown(step) && m.offset > config.chunking.max_download_bytes {
        ActionModel::Finish(block(m, size_reason(m, config)))
    } else if grown(step) && risk::aggregate(m.scores) >= config.risk.block_threshold {
        ActionModel::Finish(block(m, risk_reason(m, config)))
    } else if complete {
        ActionModel::Sweep
    } else if exceeded(
        clock_after(clock, step, now).last_growth,
        now,
        config.chunking.per_chunk_timeout_secs,
    ) {
        ActionModel::Finish(block(m, stall_reason(config)))
    } else if exceeded(clock.started, now, config.chunking.total_transfer_timeout_secs) {
        ActionModel::Finish(block(m, timeout_reason(config)))
    } else {
        ActionModel::Wait
    }
}

/// The outcome of a download that was scanned to its end.
pub open spec fn outcome(m: WatcherModel) -> OutcomeModel {
    OutcomeModel {
        risk_score: risk::aggregate(m.scores),
        descriptions: m.descriptions,
        findings: m.findings,
        bytes_scanned: m.offset,
        header_valid: m.header_valid,
        extension_mismatch: m.extension_mismatch,
        dangerous_intent: m.dangerous_intent,
    }
}

/// A sweep has read the file to its end: it saw a length, and all of that has
/// been scanned.
pub open spec fn swept(m: WatcherModel, step: StepModel) -> bool {
    step matches StepModel::Scanned { length, .. } && length == m.offset
}

/// What to do after the final sweep, which came to `step`. Only a file that was
/// scanned to its end and is not too large is completed; one that could not be
/// read, or not to its end, is treated like a download that is still in flight.
pub open spec fn verdict_on_sweep(
    m: WatcherModel,
    config: Config,
    clock: WatchClock,
    step: StepModel,
    now: u128,
) -> ActionModel {
    if swept(m, step) && m.offset > config.chunking.max_download_bytes {
        ActionModel::Finish(block(m, size_reason(m, config)))
    } else if swept(m, step) {
        ActionModel::Finish(EventModel::Completed(outcome(m)))
    } else {
        verdict_on_pass(m, config, clock, step, false, now)
    }
}

/// Whether more than so many seconds lie between two moments.
fn is_exceeded(since: u128, now: u128, secs: u64) -> (r: bool)
    ensures
        r == exceeded(since, now, secs),
{
    now > since && now - since > secs as u128 * NANOS
}

/// Whether the download has grown.
fn has_grown(step: &ScanStep) -> (r: bool)
    ensures
        r == grown(step@),
{
    match step {
        ScanStep::Scanned { fresh, .. } => *fresh > 0,
        _ => false,
    }
}

impl DownloadWatcher {
    /// The progress to report after a pass: where the download has grown, how
    /// much has been scanned and the risk so far.
    pub fn progress(&self, step: &ScanStep) -> (r: Option<(u64, i64)>)
        ensures
            r is Some <==> grown(step@),
            r matches Some(p) ==> p.0 == self@.offset && p.1 == risk::aggregate(self@.scores),
    {
        if has_grown(step) {
            Some((self.bytes_scanned(), self.current_risk()))
        } else {
            None
        }
    }

    /// The block where another security product was there first.
    fn block_external(&self, detail: &str) -> (r: WatchEvent)
        ensures
            r@ == external_block(self@, detail@),
    {
        let mut reason: String = "Blocked by another security product: ".to_string();
        reason.append(detail);
        WatchEvent::EarlyBlock {
            risk_score: RISK_ONE,
            reason,
            findings: copy_findings(self.findings.as_slice()),
        }
    }

    /// A block at the risk reached so far.
    fn block_with(&self, reason: String) -> (r: WatchEvent)
        ensures
            r@ == block(self@, reason@),
    {
        WatchEvent::EarlyBlock {
            risk_score: self.current_risk(),
            reason,
            findings: copy_findings(self.findings.as_slice()),
        }
    }

    /// The block where the download is too large.
    fn block_too_large(&self, config: &Config) -> (r: WatchEvent)
        ensures
            r@ == block(self@, size_reason(self@, *config)),
    {
        let mut reason: String = "Download exceeded maximum allowed size (".to_string();
        push_decimal(&mut reason, self.offset);
        reason.append(" bytes > ");
        push_decimal(&mut reason, config.chunking.max_download_bytes);
        reason.append(" limit)");
        self.block_with(reason)
    }

    /// Decides what to do after a pass that came to `step`, at the moment
    /// `now`; `complete` tells whether the browser has renamed the download.
    pub fn after_pass(
        &self,
        config: &Config,
        clock: &mut WatchClock,
        step: &ScanStep,
        complete: bool,
        now: u128,
    ) -> (r: WatchAction)
        ensures
            r@ == verdict_on_pass(self@, *config, *old(clock), step@, complete, now),
            *final(clock) == clock_after(*old(clock), step@, now),
    {
        if let ScanStep::ExternallyQuarantined(detail) = step {
            return WatchAction::Finish(self.block_external(detail.as_str()));
        }
        if has_grown(step) {
            clock.last_growth = now;
            if self.offset > config.chunking.max_download_bytes {
                return WatchAction::Finish(self.block_too_large(config));
            }
            let score: i64 = self.current_risk();
            if score >= config.risk.block_threshold {
                let mut reason: String = "Risk score ".to_string();
                push_risk(&mut reason, score);
                reason.append(" crossed block threshold ");
                push_risk(&mut reason, config.risk.block_threshold);
                reason.append(" after ");
                push_decimal(&mut reason, self.offset);
                reason.append(" bytes. Signals: ");
                reason.append(join(self.descriptions.as_slice(), "; ").as_str());
                return WatchAction::Finish(self.block_with(reason));
            }
        }
        if complete {
            return WatchAction::Sweep;
        }
        if is_exceeded(clock.last_growth, now, config.chunking.per_chunk_timeout_secs) {
            let mut reason: String = "Download stalled: no new bytes for ".to_string();
            push_decimal(&mut reason, config.chunking.per_chunk_timeout_secs);
            reason.append("s");
            return WatchAction::Finish(self.block_with(reason));
        }
        if is_exceeded(clock.started, now, config.chunking.total_transfer_timeout_secs) {
            let mut reason: String = "Download exceeded total transfer timeout of ".to_string();
            push_decimal(&mut reason, config.chunking.total_transfer_timeout_secs);
            reason.append("s");
            return WatchAction::Finish(self.block_with(reason));
        }
        WatchAction::Wait
    }

    /// Decides what to do after the final sweep, which came to `step`, at the
    /// moment `now`.
    pub fn after_sweep(
        &self,
        config: &Config,
        clock: &mut WatchClock,
        step: &ScanStep,
        now: u128,
    ) -> (r: WatchAction)
        ensures
            r@ == verdict_on_sweep(self@, *config, *old(clock), step@, now),
            *final(clock) == clock_after(*old(clock), step@, now),
    {
        if let ScanStep::Scanned { fresh, length } = step {
            if *length == self.offset {
                if *fresh > 0 {
                    clock.last_growth = now;
                }
                if self.offset > config.chunking.max_download_bytes {
                    return WatchAction::Finish(self.block_too_large(config));
                }
                return WatchAction::Finish(WatchEvent::Completed(Box::new(self.outcome())));
            }
        }
        self.after_pass(config, clock, step, false, now)
    }

    /// What has been seen.
    fn outcome(&self) -> (r: WatchOutcome)
        ensures
            r@ == outcome(self@),
    {
        WatchOutcome {
            risk_score: self.current_risk(),
            descriptions: copy_list(self.descriptions.as_slice()),
            findings: copy_findings(self.findings.as_slice()),
            bytes_scanned: self.offset,
            header_valid: self.header_valid,
            extension_mismatch: self.extension_mismatch,
            dangerous_intent: self.dangerous_intent,
        }
    }
}

// ---------------------------------------------------------------------------
// Laws
// ---------------------------------------------------------------------------

/// What holds of a watcher at all times: the tail it keeps is bounded, it has
/// a score for each span, and it repeats no signal.
pub open spec fn proper(m: WatcherModel) -> bool {
    &&& m.trailing.len() <= TRAILING_CONTEXT_BYTES
    &&& m.is_first_span <==> m.scores.len() == 0
    &&& m.descriptions.no_duplicates()
    &&& m.findings.no_duplicates()
}

/// A watcher starts out proper.
pub proof fn law_a_watcher_starts_out_proper(target: Seq<char>, filename: Seq<char>)
    ensures
        proper(unstarted(target, filename)),
{
}

/// A span of whatever size leaves a watcher proper: what it keeps of the bytes
/// does not grow with the file.
pub proof fn law_a_span_leaves_a_watcher_proper(m: WatcherModel, span: Seq<u8>)
    requires
        proper(m),
    ensures
        proper(absorbed(m, span)),
{
    scanner::law_merging_repeats_no_item(m.descriptions, scanned(m, span).descriptions);
    scanner::law_merging_repeats_no_item(m.findings, scanned(m, span).findings);
}

/// A signal that any span raises stays raised, a description or a finding that
/// was made stays made, and the risk never falls.
pub proof fn law_signals_stay_raised(m: WatcherModel, span: Seq<u8>)
    ensures
        m.header_valid ==> absorbed(m, span).header_valid,
        m.extension_mismatch ==> absorbed(m, span).extension_mismatch,
        m.dangerous_intent ==> absorbed(m, span).dangerous_intent,
        absorbed(m, span).descriptions.take(m.descriptions.len() as int) == m.descriptions,
        absorbed(m, span).findings.take(m.findings.len() as int) == m.findings,
        risk::aggregate(m.scores) <= risk::aggregate(absorbed(m, span).scores),
{
    let result = scanned(m, span);
    scanner::law_merging_keeps_every_item(m.descriptions, result.descriptions);
    scanner::law_merging_keeps_every_item(m.findings, result.findings);
    risk::law_more_spans_never_lower_the_score(m.scores, result.risk_score as i64);
}

/// The risk of a span is a risk.
pub proof fn law_the_risk_of_a_span_is_bounded(m: WatcherModel, span: Seq<u8>)
    ensures
        0 <= scanned(m, span).risk_score <= RISK_ONE,
{
    let context = if m.trailing.len() == 0 {
        None
    } else {
        Some(m.trailing)
    };
    intent::law_intent_risk_is_bounded(intent::with_context(span, context));
    magic_bytes::law_header_risk_is_bounded(span, m.filename);
}

/// Every span counts at once: after it the running risk is at least its own,
/// and all that it raised is known.
pub proof fn law_a_span_counts_at_once(m: WatcherModel, span: Seq<u8>)
    ensures
        scanned(m, span).risk_score <= risk::aggregate(absorbed(m, span).scores),
        scanned(m, span).extension_mismatch ==> absorbed(m, span).extension_mismatch,
        scanned(m, span).dangerous_intent ==> absorbed(m, span).dangerous_intent,
        forall|i: int|
            0 <= i < scanned(m, span).descriptions.len() ==> absorbed(
                m,
                span,
            ).descriptions.contains(#[trigger] scanned(m, span).descriptions[i]),
{
    law_the_risk_of_a_span_is_bounded(m, span);
    let scores = absorbed(m, span).scores;
    risk::law_every_span_counts(scores, scores.len() - 1);
    scanner::law_merging_keeps_every_item(m.descriptions, scanned(m, span).descriptions);
}

/// What a watcher has seen after some spans.
pub open spec fn watched(m: WatcherModel, spans: Seq<Seq<u8>>) -> WatcherModel
    decreases spans.len(),
{
    if spans.len() == 0 {
        m
    } else {
        absorbed(watched(m, spans.drop_last()), spans.last())
    }
}

/// How many bytes some spans have together.
pub open spec fn total(spans: Seq<Seq<u8>>) -> nat
    decreases spans.len(),
{
    if spans.len() == 0 {
        0
    } else {
        total(spans.drop_last()) + spans.last().len()
    }
}

/// However a file arrives, every byte of it is counted and the watcher stays
/// proper.
pub proof fn law_every_byte_is_counted(m: WatcherModel, spans: Seq<Seq<u8>>)
    requires
        proper(m),
    ensures
        watched(m, spans).offset == m.offset + total(spans),
        watched(m, spans).scores.len() == m.scores.len() + spans.len(),
        proper(watched(m, spans)),
    decreases spans.len(),
{
    if spans.len() > 0 {
        law_every_byte_is_counted(m, spans.drop_last());
        law_a_span_leaves_a_watcher_proper(watched(m, spans.drop_last()), spans.last());
    }
}

/// What one span showed holds to the end, whatever follows it.
pub proof fn law_no_span_is_forgotten(m: WatcherModel, spans: Seq<Seq<u8>>, i: int)
    requires
        0 <= i < spans.len(),
    ensures
        scanned(watched(m, spans.take(i)), spans[i]).risk_score <= risk::aggregate(
            watched(m, spans).scores,
        ),
        scanned(watched(m, spans.take(i)), spans[i]).extension_mismatch ==> watched(
            m,
            spans,
        ).extension_mismatch,
        scanned(watched(m, spans.take(i)), spans[i]).dangerous_intent ==> watched(
            m,
            spans,
        ).dangerous_intent,
    decreases spans.len(),
{
    let before = spans.drop_last();
    if i == before.len() {
        assert(spans.take(i) =~= before);
        law_a_span_counts_at_once(watched(m, before), spans.last());
    } else {
        assert(before.take(i) =~= spans.take(i));
        law_no_span_is_forgotten(m, before, i);
        law_signals_stay_raised(watched(m, before), spans.last());
    }
}

/// What some spans hold together.
pub open spec fn content(spans: Seq<Seq<u8>>) -> Seq<u8>
    decreases spans.len(),
{
    if spans.len() == 0 {
        Seq::empty()
    } else {
        content(spans.drop_last()) + spans.last()
    }
}

/// The end of a file is the end of what was kept of it and the rest.
proof fn lemma_tail_of_tail(a: Seq<u8>, b: Seq<u8>)
    ensures
        tail(tail(a) + b) == tail(a + b),
{
    assert(tail(tail(a) + b) =~= tail(a + b));
}

/// Whatever the sizes of the spans, the bytes that are kept are the last of
/// the file, and no byte is counted twice or left out.
pub proof fn law_the_end_of_the_file_is_kept(
    target: Seq<char>,
    filename: Seq<char>,
    spans: Seq<Seq<u8>>,
)
    ensures
        watched(unstarted(target, filename), spans).trailing == tail(content(spans)),
        watched(unstarted(target, filename), spans).offset == content(spans).len(),
    decreases spans.len(),
{
    if spans.len() > 0 {
        law_the_end_of_the_file_is_kept(target, filename, spans.drop_last());
        lemma_tail_of_tail(content(spans.drop_last()), spans.last());
    }
}

/// What stands in two parts of a file stands in one of them, or in the second
/// with the kept end of the first before it.
proof fn lemma_parts_are_flagged(a: Seq<u8>, b: Seq<u8>)
    ensures
        intent::intent(a + b).flagged <==> intent::intent(a).flagged || intent::intent(
            tail(a) + b,
        ).flagged,
{
    let kept = tail(a).len() as int;
    let cut = a.len() - kept;
    assert(tail(a) =~= a.skip(cut));
    intent::law_flagged_means_a_pattern(a + b);
    intent::law_flagged_means_a_pattern(a);
    intent::law_flagged_means_a_pattern(tail(a) + b);
    if intent::intent(a + b).flagged {
        let k = choose|k: int|
            0 <= k < intent::RED_FLAGS@.len() && #[trigger] intent::hit(a + b, k);
        intent::law_a_split_pattern_is_found(a, b, k, kept);
    }
    if intent::intent(a).flagged {
        let k = choose|k: int| 0 <= k < intent::RED_FLAGS@.len() && #[trigger] intent::hit(a, k);
        intent::law_a_pattern_stands_in_more_data(Seq::empty(), a, b, k);
        assert(Seq::<u8>::empty() + a + b =~= a + b);
        assert(intent::hit(a + b, k));
    }
    if intent::intent(tail(a) + b).flagged {
        let k = choose|k: int|
            0 <= k < intent::RED_FLAGS@.len() && #[trigger] intent::hit(tail(a) + b, k);
        intent::law_a_pattern_stands_in_more_data(a.take(cut), tail(a) + b, Seq::empty(), k);
        assert(a.take(cut) + (tail(a) + b) + Seq::<u8>::empty() =~= a + b);
        assert(intent::hit(a + b, k));
    }
}

/// How a file is cut does not matter: however many spans it arrives in, and
/// however many boundaries split a pattern, the flag is raised exactly where a
/// scan of the file in one piece would raise it.
pub proof fn law_how_a_file_is_cut_does_not_matter(
    target: Seq<char>,
    filename: Seq<char>,
    spans: Seq<Seq<u8>>,
)
    ensures
        watched(unstarted(target, filename), spans).dangerous_intent <==> intent::intent(
            content(spans),
        ).flagged,
    decreases spans.len(),
{
    let m = unstarted(target, filename);
    if spans.len() == 0 {
        lemma_nothing_is_flagged();
    } else {
        let before = spans.drop_last();
        let a = content(before);
        let b = spans.last();
        law_how_a_file_is_cut_does_not_matter(target, filename, before);
        law_the_end_of_the_file_is_kept(target, filename, before);
        lemma_parts_are_flagged(a, b);
        let w = watched(m, before);
        let context = if w.trailing.len() == 0 {
            None
        } else {
            Some(w.trailing)
        };
        assert(intent::with_context(b, context) =~= tail(a) + b);
    }
}

/// No pattern stands in nothing.
proof fn lemma_nothing_is_flagged()
    ensures
        !intent::intent(Seq::empty()).flagged,
{
    assert forall|k: int| 0 <= k < intent::RED_FLAGS@.len() implies !#[trigger] intent::hit(
        Seq::empty(),
        k,
    ) by {
        intent::law_a_pattern_takes_bytes(Seq::empty(), k);
    }
    intent::law_clean_data_is_not_flagged(Seq::empty());
}

/// Two watchers that read the same file in different spans agree on its length
/// and on the flag.
pub proof fn law_watchers_of_one_file_agree(
    target: Seq<char>,
    filename: Seq<char>,
    one: Seq<Seq<u8>>,
    other: Seq<Seq<u8>>,
)
    requires
        content(one) == content(other),
    ensures
        watched(unstarted(target, filename), one).offset == watched(
            unstarted(target, filename),
            other,
        ).offset,
        watched(unstarted(target, filename), one).dangerous_intent == watched(
            unstarted(target, filename),
            other,
        ).dangerous_intent,
{
    law_the_end_of_the_file_is_kept(target, filename, one);
    law_the_end_of_the_file_is_kept(target, filename, other);
    law_how_a_file_is_cut_does_not_matter(target, filename, one);
    law_how_a_file_is_cut_does_not_matter(target, filename, other);
}

/// Spans in which only ordinary names stand, without a mismatch, score no more
/// than the ceiling of such names.
proof fn lemma_names_alone(target: Seq<char>, filename: Seq<char>, spans: Seq<Seq<u8>>)
    requires
        !watched(unstarted(target, filename), spans).extension_mismatch,
        forall|k: int|
            0 <= k < intent::RED_FLAGS@.len() && #[trigger] intent::hit(content(spans), k)
                ==> intent::RED_FLAGS@[k].2 == intent::Weight::Indicative,
    ensures
        forall|i: int|
            0 <= i < watched(unstarted(target, filename), spans).scores.len()
                ==> #[trigger] watched(unstarted(target, filename), spans).scores[i]
                <= intent::MAX_INDICATIVE_RISK,
    decreases spans.len(),
{
    if spans.len() > 0 {
        let before = spans.drop_last();
        let a = content(before);
        let b = spans.last();
        let kept = tail(a).len() as int;
        let cut = a.len() - kept;
        assert(tail(a) =~= a.skip(cut));
        assert forall|k: int|
            0 <= k < intent::RED_FLAGS@.len() && #[trigger] intent::hit(
                a,
                k,
            ) implies intent::RED_FLAGS@[k].2 == intent::Weight::Indicative by {
            intent::law_a_pattern_stands_in_more_data(Seq::empty(), a, b, k);
            assert(Seq::<u8>::empty() + a + b =~= content(spans));
        }
        lemma_names_alone(target, filename, before);
        law_the_end_of_the_file_is_kept(target, filename, before);
        let w = watched(unstarted(target, filename), before);
        let context = if w.trailing.len() == 0 {
            None
        } else {
            Some(w.trailing)
        };
        assert(intent::with_context(b, context) =~= tail(a) + b);
        assert forall|k: int|
            0 <= k < intent::RED_FLAGS@.len() && #[trigger] intent::hit(
                intent::with_context(b, context),
                k,
            ) implies intent::RED_FLAGS@[k].2 == intent::Weight::Indicative by {
            intent::law_a_pattern_stands_in_more_data(a.take(cut), tail(a) + b, Seq::empty(), k);
            assert(a.take(cut) + (tail(a) + b) + Seq::<u8>::empty() =~= content(spans));
        }
        scanner::law_names_alone_stay_below_their_ceiling(b, filename, w.is_first_span, context);
        law_the_risk_of_a_span_is_bounded(w, b);
        lemma_the_name_stays(target, filename, before);
    }
}

/// The name that a download is for does not change.
proof fn lemma_the_name_stays(target: Seq<char>, filename: Seq<char>, spans: Seq<Seq<u8>>)
    ensures
        watched(unstarted(target, filename), spans).filename == filename,
    decreases spans.len(),
{
    if spans.len() > 0 {
        lemma_the_name_stays(target, filename, spans.drop_last());
    }
}

/// A download in which only names of ordinary functions, tools and paths stand,
/// and whose type does not contradict its name, is not held back by the scan of
/// its spans, as long as the thresholds lie above the ceiling of such names.
pub proof fn law_names_alone_do_not_hold_a_download(
    target: Seq<char>,
    filename: Seq<char>,
    spans: Seq<Seq<u8>>,
    config: Config,
)
    requires
        config.risk.sandbox_threshold > intent::MAX_INDICATIVE_RISK,
        config.risk.block_threshold > intent::MAX_INDICATIVE_RISK,
        !watched(unstarted(target, filename), spans).extension_mismatch,
        forall|k: int|
            0 <= k < intent::RED_FLAGS@.len() && #[trigger] intent::hit(content(spans), k)
                ==> intent::RED_FLAGS@[k].2 == intent::Weight::Indicative,
    ensures
        risk::decision(
            risk::aggregate(watched(unstarted(target, filename), spans).scores),
            config.risk,
        ) == risk::Decision::Release,
{
    lemma_names_alone(target, filename, spans);
    risk::law_repeated_signals_do_not_accumulate(
        watched(unstarted(target, filename), spans).scores,
        intent::MAX_INDICATIVE_RISK as int,
    );
}

/// A download is stopped in flight: where it has grown and its risk has reached
/// the block threshold, the pass ends in a block, whether it is complete or
/// not.
pub proof fn law_a_risky_download_is_stopped_at_once(
    m: WatcherModel,
    config: Config,
    clock: WatchClock,
    step: StepModel,
    complete: bool,
    now: u128,
)
    requires
        grown(step),
        risk::aggregate(m.scores) >= config.risk.block_threshold,
    ensures
        verdict_on_pass(m, config, clock, step, complete, now) matches
            ActionModel::Finish(EventModel::EarlyBlock { .. }),
{
}

/// Dangerous content is caught while it arrives: a span whose own risk reaches
/// the block threshold ends the pass in a block, whatever came before it.
pub proof fn law_dangerous_content_is_caught_in_flight(
    m: WatcherModel,
    span: Seq<u8>,
    config: Config,
    clock: WatchClock,
    length: nat,
    complete: bool,
    now: u128,
)
    requires
        span.len() > 0,
        scanned(m, span).risk_score >= config.risk.block_threshold,
    ensures
        verdict_on_pass(
            absorbed(m, span),
            config,
            clock,
            StepModel::Scanned { fresh: span.len(), length },
            complete,
            now,
        ) matches ActionModel::Finish(EventModel::EarlyBlock { .. }),
{
    law_a_span_counts_at_once(m, span);
}

/// A pass never ends a watch with a completed download, and asks for the final
/// sweep only where the browser has renamed the file.
pub proof fn law_completion_takes_a_rename_and_a_sweep(
    m: WatcherModel,
    config: Config,
    clock: WatchClock,
    step: StepModel,
    complete: bool,
    now: u128,
)
    ensures
        !(verdict_on_pass(m, config, clock, step, complete, now) matches ActionModel::Finish(
            EventModel::Completed(_),
        )),
        verdict_on_pass(m, config, clock, step, complete, now) is Sweep ==> complete,
{
}

/// A completed download was scanned to its end: the sweep saw the file, and as
/// many bytes have been scanned as it was long. A file that could not be read
/// is never reported as scanned, and a sweep asks for no other.
pub proof fn law_a_completed_download_was_scanned_to_its_end(
    m: WatcherModel,
    config: Config,
    clock: WatchClock,
    step: StepModel,
    now: u128,
)
    ensures
        verdict_on_sweep(m, config, clock, step, now) matches ActionModel::Finish(
            EventModel::Completed(o),
        ) ==> (step matches StepModel::Scanned { length, .. } && o.bytes_scanned == length),
        step is Busy ==> !(verdict_on_sweep(m, config, clock, step, now) matches
            ActionModel::Finish(EventModel::Completed(_))),
        !(verdict_on_sweep(m, config, clock, step, now) is Sweep),
{
}

/// The limit on the size of a download is a hard one: no download above it is
/// completed, and one that grows above it is blocked at once.
pub proof fn law_no_download_above_the_limit_is_completed(
    m: WatcherModel,
    config: Config,
    clock: WatchClock,
    step: StepModel,
    complete: bool,
    now: u128,
)
    ensures
        verdict_on_sweep(m, config, clock, step, now) matches ActionModel::Finish(
            EventModel::Completed(o),
        ) ==> o.bytes_scanned <= config.chunking.max_download_bytes,
        grown(step) && m.offset > config.chunking.max_download_bytes ==> {
            &&& verdict_on_pass(m, config, clock, step, complete, now) == ActionModel::Finish(
                block(m, size_reason(m, config)),
            )
            &&& verdict_on_sweep(m, config, clock, step, now) == ActionModel::Finish(
                block(m, size_reason(m, config)),
            )
        },
{
}

/// A renamed file that stays unreadable ends in a block as soon as it has
/// stalled.
pub proof fn law_an_unreadable_file_is_blocked_once_it_stalls(
    m: WatcherModel,
    config: Config,
    clock: WatchClock,
    now: u128,
)
    requires
        exceeded(clock.last_growth, now, config.chunking.per_chunk_timeout_secs),
    ensures
        verdict_on_sweep(m, config, clock, StepModel::Busy, now) == ActionModel::Finish(
            block(m, stall_reason(config)),
        ),
{
}

/// No download is waited on for ever: as long as one is, it has grown within
/// the time for a chunk, and the whole has not taken longer than allowed.
pub proof fn law_waiting_is_bounded(
    m: WatcherModel,
    config: Config,
    clock: WatchClock,
    step: StepModel,
    complete: bool,
    now: u128,
)
    requires
        verdict_on_pass(m, config, clock, step, complete, now) is Wait,
    ensures
        now - clock_after(clock, step, now).last_growth <= config.chunking.per_chunk_timeout_secs
            * NANOS,
        now - clock.started <= config.chunking.total_transfer_timeout_secs * NANOS,
        !complete,
{
}

/// A file that the writer holds is no failure, at whichever step it shows: the
/// pass ends without having seen the file, and the next one tries again.
pub proof fn law_a_busy_file_is_no_failure(fault: IoFault, path: Seq<char>)
    requires
        transient(fault),
    ensures
        open_failure(fault, path) is Ok,
        !infected(fault) ==> open_failure(fault, path) == Ok::<StepModel, Seq<char>>(
            StepModel::Busy,
        ),
        stat_failure(fault, path) == Ok::<StepModel, Seq<char>>(StepModel::Busy),
        read_step(ReadOutcome::Failed(fault)) == ReadStep::Done,
{
}

/// Which errors pass: a file that is not there yet, that may not be touched, or
/// an interrupted call, and the two with which Windows tells that the writer
/// holds the file. One means that another product took it away.
pub proof fn law_which_errors_pass(fault: IoFault)
    ensures
        transient(fault) <==> fault.kind == IoKind::NotFound || fault.kind
            == IoKind::PermissionDenied || fault.kind == IoKind::Interrupted || fault.windows_code
            == Some(32i32) || fault.windows_code == Some(33i32),
        infected(fault) <==> fault.windows_code == Some(225i32),
{
}

/// Other errors end the watch, at whichever step they come; a file that another
/// product took away is told apart from both.
pub proof fn law_other_errors_end_the_watch(fault: IoFault, path: Seq<char>)
    ensures
        infected(fault) ==> (open_failure(fault, path) matches Ok(step) && (step matches
            StepModel::ExternallyQuarantined(detail) && sequences::occurs(detail, path))),
        !infected(fault) && !transient(fault) ==> open_failure(fault, path) is Err,
        !transient(fault) ==> stat_failure(fault, path) is Err,
        !transient(fault) ==> read_step(ReadOutcome::Failed(fault)) == ReadStep::Failed,
{
    let lead = "another security product (likely Windows Defender) quarantined "@;
    let detail = lead + path + " before Aegis could scan it"@;
    assert(detail.subrange(lead.len() as int, (lead.len() + path.len()) as int) =~= path);
    assert(sequences::occurs_at(detail, path, lead.len() as int));
}

/// A pass reads on as long as bytes come, and stops where none do.
pub proof fn law_a_pass_reads_while_bytes_come(span: &[u8])
    ensures
        span@.len() > 0 ==> read_step(ReadOutcome::Bytes(span)) == ReadStep::Continue,
        span@.len() == 0 ==> read_step(ReadOutcome::Bytes(span)) == ReadStep::Done,
{
}

/// A read asks for no more than a chunk and no more than there is, for as much
/// as that allows, and for nothing only where nothing is left.
pub proof fn law_what_a_read_asks_for(offset: nat, len: nat, chunk_size: nat)
    requires
        chunk_size > 0,
    ensures
        want(offset, len, chunk_size) <= chunk_size,
        want(offset, len, chunk_size) == 0 <==> len <= offset,
        len > offset ==> offset + want(offset, len, chunk_size) <= len,
        len > offset ==> want(offset, len, chunk_size) == chunk_size || offset + want(
            offset,
            len,
            chunk_size,
        ) == len,
{
}

/// The header is looked at in the first span and in no other; intent is looked
/// for in every span, with the end of what came before it.
pub proof fn law_what_a_watcher_looks_at(
    m: WatcherModel,
    target: Seq<char>,
    filename: Seq<char>,
    span: Seq<u8>,
)
    ensures
        scanned(unstarted(target, filename), span) == scanner::span_scan(
            span,
            filename,
            true,
            None,
        ),
        !absorbed(m, span).is_first_span,
        !m.is_first_span ==> !scanned(m, span).extension_mismatch && !scanned(m, span).header_valid,
        m.is_first_span ==> scanned(m, span).extension_mismatch == magic_bytes::header_check(
            span,
            m.filename,
        ).mismatch,
        scanned(m, span).dangerous_intent <==> intent::intent(m.trailing + span).flagged,
        absorbed(m, span).filename == m.filename,
        absorbed(m, span).target == m.target,
{
    let context = if m.trailing.len() == 0 {
        None
    } else {
        Some(m.trailing)
    };
    assert(intent::with_context(span, context) =~= m.trailing + span);
}

/// A signal is raised by a span that shows it, and by nothing else; what a span
/// says and finds is kept, and nothing is kept that no span said or found.
pub proof fn law_signals_come_of_spans(m: WatcherModel, span: Seq<u8>)
    ensures
        absorbed(m, span).header_valid <==> m.header_valid || scanned(m, span).header_valid,
        absorbed(m, span).extension_mismatch <==> m.extension_mismatch || scanned(
            m,
            span,
        ).extension_mismatch,
        absorbed(m, span).dangerous_intent <==> m.dangerous_intent || scanned(
            m,
            span,
        ).dangerous_intent,
        forall|f: FindingModel| #[trigger]
            absorbed(m, span).findings.contains(f) <==> m.findings.contains(f) || scanned(
                m,
                span,
            ).findings.contains(f),
        forall|d: Seq<char>| #[trigger]
            absorbed(m, span).descriptions.contains(d) <==> m.descriptions.contains(d) || scanned(
                m,
                span,
            ).descriptions.contains(d),
{
    assert forall|f: FindingModel| #[trigger]
        absorbed(m, span).findings.contains(f) <==> m.findings.contains(f) || scanned(
            m,
            span,
        ).findings.contains(f) by {
        scanner::law_merging_gathers_both(m.findings, scanned(m, span).findings, f);
    }
    assert forall|d: Seq<char>| #[trigger]
        absorbed(m, span).descriptions.contains(d) <==> m.descriptions.contains(d) || scanned(
            m,
            span,
        ).descriptions.contains(d) by {
        scanner::law_merging_gathers_both(m.descriptions, scanned(m, span).descriptions, d);
    }
}

/// An attack command counts wherever it stands in a file and however the file is
/// cut: at the end the risk is at least its weight.
pub proof fn law_a_command_counts_however_it_is_cut(
    target: Seq<char>,
    filename: Seq<char>,
    spans: Seq<Seq<u8>>,
    k: int,
)
    requires
        0 <= k < intent::RED_FLAGS@.len(),
        intent::RED_FLAGS@[k].2 == intent::Weight::Decisive,
        intent::hit(content(spans), k),
    ensures
        risk::aggregate(watched(unstarted(target, filename), spans).scores)
            >= intent::RED_FLAGS@[k].1,
    decreases spans.len(),
{
    let m = unstarted(target, filename);
    if spans.len() == 0 {
        intent::law_a_pattern_takes_bytes(content(spans), k);
    } else {
        let before = spans.drop_last();
        let a = content(before);
        let b = spans.last();
        let w = watched(m, before);
        law_the_end_of_the_file_is_kept(target, filename, before);
        let kept = tail(a).len() as int;
        assert(tail(a) =~= a.skip(a.len() - kept));
        intent::law_a_split_pattern_is_found(a, b, k, kept);
        if intent::hit(a, k) {
            law_a_command_counts_however_it_is_cut(target, filename, before, k);
            law_signals_stay_raised(w, b);
        } else {
            let context = if w.trailing.len() == 0 {
                None
            } else {
                Some(w.trailing)
            };
            assert(intent::with_context(b, context) =~= tail(a) + b);
            scanner::law_an_attack_command_weighs_in_any_span(
                b,
                filename,
                w.is_first_span,
                context,
                k,
            );
            lemma_names_are_kept(m, before);
            law_a_span_counts_at_once(w, b);
        }
    }
}

/// A watcher keeps the name that the download is for.
proof fn lemma_names_are_kept(m: WatcherModel, spans: Seq<Seq<u8>>)
    ensures
        watched(m, spans).filename == m.filename,
    decreases spans.len(),
{
    if spans.len() > 0 {
        lemma_names_are_kept(m, spans.drop_last());
    }
}

/// A program under the name of something else counts from its first span on,
/// whatever follows: the mismatch stays, and so does its risk.
pub proof fn law_a_mismatch_holds_to_the_end(
    target: Seq<char>,
    filename: Seq<char>,
    spans: Seq<Seq<u8>>,
)
    requires
        spans.len() > 0,
    ensures
        watched(unstarted(target, filename), spans).extension_mismatch
            <==> magic_bytes::header_check(spans[0], filename).mismatch,
        watched(unstarted(target, filename), spans).header_valid <==> magic_bytes::header_check(
            spans[0],
            filename,
        ).valid,
        risk::aggregate(watched(unstarted(target, filename), spans).scores)
            >= magic_bytes::header_check(spans[0], filename).risk,
    decreases spans.len(),
{
    let m = unstarted(target, filename);
    let before = spans.drop_last();
    let w = watched(m, before);
    if before.len() == 0 {
        assert(w == m);
        assert(spans.last() == spans[0]);
        scanner::law_header_and_intent_both_count(spans[0], filename, true, None);
        law_a_span_counts_at_once(m, spans[0]);
    } else {
        law_a_mismatch_holds_to_the_end(target, filename, before);
        assert(before[0] == spans[0]);
        law_what_a_watcher_looks_at(
            watched(m, before.drop_last()),
            target,
            filename,
            before.last(),
        );
        law_what_a_watcher_looks_at(w, target, filename, spans.last());
        law_signals_stay_raised(w, spans.last());
    }
}

/// What ends a watch carries the risk reached and everything that was found. A
/// file that another product took away is certain to be bad.
pub proof fn law_an_end_carries_what_was_found(
    m: WatcherModel,
    config: Config,
    clock: WatchClock,
    step: StepModel,
    complete: bool,
    now: u128,
)
    ensures
        verdict_on_pass(m, config, clock, step, complete, now) matches ActionModel::Finish(
            EventModel::EarlyBlock { risk_score, findings, .. },
        ) ==> findings == m.findings && risk_score == if step is ExternallyQuarantined {
            10_000
        } else {
            risk::aggregate(m.scores)
        },
        verdict_on_sweep(m, config, clock, step, now) matches ActionModel::Finish(
            EventModel::EarlyBlock { risk_score, findings, .. },
        ) ==> findings == m.findings && risk_score == if step is ExternallyQuarantined {
            10_000
        } else {
            risk::aggregate(m.scores)
        },
        verdict_on_sweep(m, config, clock, step, now) matches ActionModel::Finish(
            EventModel::Completed(o),
        ) ==> {
            &&& o.risk_score == risk::aggregate(m.scores)
            &&& o.descriptions == m.descriptions
            &&& o.findings == m.findings
            &&& o.bytes_scanned == m.offset
            &&& o.header_valid == m.header_valid
            &&& o.extension_mismatch == m.extension_mismatch
            &&& o.dangerous_intent == m.dangerous_intent
        },
{
}

/// A file that another product took away ends the watch in a block, at a pass
/// and at the sweep, and the reason names what that product did.
pub proof fn law_a_file_taken_away_is_blocked(
    m: WatcherModel,
    config: Config,
    clock: WatchClock,
    detail: Seq<char>,
    complete: bool,
    now: u128,
)
    ensures
        verdict_on_pass(
            m,
            config,
            clock,
            StepModel::ExternallyQuarantined(detail),
            complete,
            now,
        ) matches ActionModel::Finish(EventModel::EarlyBlock { reason, .. })
            && sequences::finishes_with(reason, detail),
        verdict_on_sweep(
            m,
            config,
            clock,
            StepModel::ExternallyQuarantined(detail),
            now,
        ) matches ActionModel::Finish(EventModel::EarlyBlock { reason, .. })
            && sequences::finishes_with(reason, detail),
{
    let reason = "Blocked by another security product: "@ + detail;
    assert(reason.subrange(reason.len() - detail.len(), reason.len() as int) =~= detail);
}

/// A download that is in order is let go on: one that was not taken away, is not
/// too large, not too risky, and has grown lately and is within its time, is
/// waited on, and swept once the browser has renamed it.
pub proof fn law_a_download_in_order_goes_on(
    m: WatcherModel,
    config: Config,
    clock: WatchClock,
    step: StepModel,
    now: u128,
)
    requires
        !(step is ExternallyQuarantined),
        m.offset <= config.chunking.max_download_bytes,
        risk::aggregate(m.scores) < config.risk.block_threshold,
    ensures
        verdict_on_pass(m, config, clock, step, true, now) is Sweep,
        now - clock.started <= config.chunking.total_transfer_timeout_secs * 1_000_000_000 && (grown(
            step,
        ) || now - clock.last_growth <= config.chunking.per_chunk_timeout_secs * 1_000_000_000)
            ==> verdict_on_pass(m, config, clock, step, false, now) is Wait,
        step matches StepModel::Scanned { length, .. } && length == m.offset ==> (verdict_on_sweep(
            m,
            config,
            clock,
            step,
            now,
        ) matches ActionModel::Finish(EventModel::Completed(_))),
{
}

/// A download that stalls, or takes too long, is blocked: more than the time for
/// a chunk without new bytes, or more than the time for a transfer in all.
pub proof fn law_a_stalled_download_is_blocked(
    m: WatcherModel,
    config: Config,
    clock: WatchClock,
    step: StepModel,
    now: u128,
)
    requires
        !grown(step),
        now - clock.last_growth > config.chunking.per_chunk_timeout_secs * 1_000_000_000 || now
            - clock.started > config.chunking.total_transfer_timeout_secs * 1_000_000_000,
    ensures
        verdict_on_pass(m, config, clock, step, false, now) matches ActionModel::Finish(
            EventModel::EarlyBlock { .. },
        ),
{
}

/// The clock is set by new bytes and by nothing else, and never forgets when the
/// watch began.
pub proof fn law_new_bytes_set_the_clock(clock: WatchClock, fresh: nat, length: nat, now: u128)
    ensures
        clock_after(clock, StepModel::Scanned { fresh, length }, now).last_growth == if fresh > 0 {
            now
        } else {
            clock.last_growth
        },
        clock_after(clock, StepModel::Busy, now) == clock,
        clock_after(clock, StepModel::Scanned { fresh, length }, now).started == clock.started,
{
}

/// What is kept of a file for the next span are its last bytes, five hundred and
/// twelve at most: more than any pattern takes in either encoding.
pub proof fn law_enough_is_kept_for_any_pattern(data: Seq<u8>, k: int)
    requires
        0 <= k < intent::RED_FLAGS@.len(),
    ensures
        tail(data).len() == vstd::math::min(data.len() as int, 512),
        data.skip(data.len() - tail(data).len()) == tail(data),
        2 * intent::RED_FLAGS@[k].0@.len() <= 512,
{
    assert(data.skip(data.len() - tail(data).len()) =~= tail(data));
    intent::law_patterns_are_short(k);
}

} // verus!
