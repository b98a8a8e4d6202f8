//! What the host answers to a message, and how the session of a download ends.
//!
//! Nothing here reads, writes or moves anything: the caller does, and tells
//! what came of it. Whatever cannot be cleared is not released, and neither is
//! what could not be analysed.
use crate::config::{ChunkingConfig, Config};
use crate::identifiers;
use crate::identifiers::is_uuid;
use crate::ipc::native_messaging;
use crate::ipc::native_messaging::{
    send_early_block, send_final_verdict, send_final_verdict_with_findings, send_verdict,
    Outgoing, OutgoingModel,
};
use crate::json;
use crate::json::text_member;
use crate::numbers;
use crate::numbers::{push_decimal, push_risk};
use crate::quarantine;
use crate::release::Released;
use crate::risk;
use crate::risk::{decide, Decision};
use crate::scanner;
use crate::scanner::finding;
use crate::scanner::finding::{copy_findings, sort_by_severity, Finding, FindingModel};
use crate::scanner::signature;
use crate::scanner::signature::{TrustModel, TrustStatus};
use crate::scanner::{combine, ForensicModel, ForensicResult};
use crate::sequences;
use crate::text;
use crate::text::{chars_of, copy_list, find_char, join, quote, same, string_of, substring};
use crate::watcher;
use crate::watcher::{OutcomeModel, WatchOutcome};
use serde_json::Value;
use vstd::prelude::*;

verus! {

// ---------------------------------------------------------------------------
// Requests
// ---------------------------------------------------------------------------

/// The members of a message that the host looks at.
#[derive(Debug)]
pub struct Incoming {
    pub kind: Option<String>,
    pub session_id: Option<String>,
    pub quarantine_path: Option<String>,
    pub original_filename: Option<String>,
    pub url: Option<String>,
}

/// What a message says.
pub struct IncomingModel {
    pub kind: Option<Seq<char>>,
    pub session_id: Option<Seq<char>>,
    pub quarantine_path: Option<Seq<char>>,
    pub original_filename: Option<Seq<char>>,
    pub url: Option<Seq<char>>,
}

impl View for Incoming {
    type V = IncomingModel;

    open spec fn view(&self) -> IncomingModel {
        IncomingModel {
            kind: text::text_of(self.kind),
            session_id: text::text_of(self.session_id),
            quarantine_path: text::text_of(self.quarantine_path),
            original_filename: text::text_of(self.original_filename),
            url: text::text_of(self.url),
        }
    }
}

/// What a message says that holds this.
pub open spec fn incoming_of(message: json::Json) -> IncomingModel {
    IncomingModel {
        kind: json::member(message, "type"@),
        session_id: json::member(message, "session_id"@),
        quarantine_path: json::member(message, "quarantine_path"@),
        original_filename: json::member(message, "original_filename"@),
        url: json::member(message, "url"@),
    }
}

/// Picks the members that the host looks at.
pub fn incoming(value: &Value) -> (r: Incoming)
    ensures
        r@ == incoming_of(json::json(*value)),
{
    Incoming {
        kind: text_member(value, "type"),
        session_id: text_member(value, "session_id"),
        quarantine_path: text_member(value, "quarantine_path"),
        original_filename: text_member(value, "original_filename"),
        url: text_member(value, "url"),
    }
}

/// What a message asks for.
#[derive(Debug)]
pub enum Request {
    /// Tell that the host is there.
    Ping,
    /// Watch a download.
    Watch { session_id: String, quarantine_path: String, original_filename: String },
    /// Nothing but this answer.
    Answer(Outgoing),
}

/// What a request says.
pub enum RequestModel {
    Ping,
    Watch { session_id: Seq<char>, quarantine_path: Seq<char>, original_filename: Seq<char> },
    Answer(OutgoingModel),
}

impl View for Request {
    type V = RequestModel;

    open spec fn view(&self) -> RequestModel {
        match self {
            Request::Ping => RequestModel::Ping,
            Request::Watch { session_id, quarantine_path, original_filename } => {
                RequestModel::Watch {
                    session_id: session_id@,
                    quarantine_path: quarantine_path@,
                    original_filename: original_filename@,
                }
            },
            Request::Answer(message) => RequestModel::Answer(message@),
        }
    }
}

/// The status of a message that is refused.
pub const REJECTED: &'static str = "REJECTED_MALFORMED";

/// The name of a download for which the browser gave none.
pub const DEFAULT_FILENAME: &'static str = "download.bin";

/// What is said of the messages that streamed a download in chunks.
pub const RETIRED: &'static str = "The chunk-streaming protocol was removed in Phase 2. Nothing is scanned \
     or released through it. Update the extension to send WATCH_BEGIN.";

/// The refusal of a message.
pub open spec fn refusal(why: Seq<char>, session_id: Option<Seq<char>>) -> RequestModel {
    RequestModel::Answer(native_messaging::plain_verdict(REJECTED@, why, session_id))
}

/// There is a text, and it is not empty.
pub open spec fn given(s: Option<Seq<char>>) -> bool {
    s matches Some(t) && t.len() > 0
}

/// What a message to watch a download asks for.
pub open spec fn watch_request(m: IncomingModel) -> RequestModel {
    if !given(m.session_id) {
        refusal("WATCH_BEGIN missing 'session_id'"@, None)
    } else if !given(m.quarantine_path) {
        refusal("WATCH_BEGIN missing 'quarantine_path'"@, m.session_id)
    } else {
        RequestModel::Watch {
            session_id: m.session_id->0,
            quarantine_path: m.quarantine_path->0,
            original_filename: match m.original_filename {
                Some(name) => name,
                None => DEFAULT_FILENAME@,
            },
        }
    }
}

/// What a message asks for.
pub open spec fn request_of(m: IncomingModel) -> RequestModel {
    match m.kind {
        None => refusal("Message missing 'type' field"@, None),
        Some(kind) => if kind == "PING"@ {
            RequestModel::Ping
        } else if kind == "WATCH_BEGIN"@ {
            watch_request(m)
        } else if kind == "START_DOWNLOAD"@ || kind == "CHUNK"@ {
            refusal(RETIRED@, m.session_id)
        } else if kind == "CHECK_URL"@ {
            if m.url is Some {
                RequestModel::Answer(unscored())
            } else {
                refusal("CHECK_URL missing 'url'"@, None)
            }
        } else {
            refusal("Unknown message type: "@ + kind, m.session_id)
        },
    }
}

/// The score of a link of which nothing is known: one half.
pub const UNSCORED: i64 = 5_000;

/// What is said of every link.
pub open spec fn unscored() -> OutgoingModel {
    OutgoingModel::UrlScore {
        score: UNSCORED as int,
        label: "unscored"@,
        reason: "URL scoring is not part of this build"@,
    }
}

/// Whether there is a text that is not empty.
fn is_given(s: &Option<String>) -> (r: bool)
    ensures
        r == given(text::text_of(*s)),
{
    match s {
        Some(t) => !t.as_str().is_empty(),
        None => false,
    }
}

/// What a message to watch a download asks for.
fn check_watch(m: &Incoming) -> (r: Request)
    ensures
        r@ == watch_request(m@),
{
    if !is_given(&m.session_id) {
        return Request::Answer(send_verdict(REJECTED, "WATCH_BEGIN missing 'session_id'", &None));
    }
    if !is_given(&m.quarantine_path) {
        return Request::Answer(
            send_verdict(REJECTED, "WATCH_BEGIN missing 'quarantine_path'", &m.session_id),
        );
    }
    let session_id: String = match &m.session_id {
        Some(s) => s.clone(),
        None => String::new(),
    };
    let quarantine_path: String = match &m.quarantine_path {
        Some(s) => s.clone(),
        None => String::new(),
    };
    let original_filename: String = match &m.original_filename {
        Some(s) => s.clone(),
        None => DEFAULT_FILENAME.to_string(),
    };
    Request::Watch { session_id, quarantine_path, original_filename }
}

/// What a message asks for.
pub fn dispatch(m: &Incoming) -> (r: Request)
    ensures
        r@ == request_of(m@),
{
    let kind = match &m.kind {
        None => {
            return Request::Answer(send_verdict(REJECTED, "Message missing 'type' field", &None));
        },
        Some(kind) => kind.as_str(),
    };
    if same(kind, "PING") {
        Request::Ping
    } else if same(kind, "WATCH_BEGIN") {
        check_watch(m)
    } else if same(kind, "START_DOWNLOAD") || same(kind, "CHUNK") {
        Request::Answer(send_verdict(REJECTED, RETIRED, &m.session_id))
    } else if same(kind, "CHECK_URL") {
        handle_url_check(&m.url)
    } else {
        let mut why: String = "Unknown message type: ".to_string();
        why.append(kind);
        Request::Answer(send_verdict(REJECTED, why.as_str(), &m.session_id))
    }
}

/// The answer to a message about a link: none is scored.
pub fn handle_url_check(url: &Option<String>) -> (r: Request)
    ensures
        r@ == if url is Some {
            RequestModel::Answer(unscored())
        } else {
            refusal("CHECK_URL missing 'url'"@, None)
        },
{
    if url.is_none() {
        return Request::Answer(send_verdict(REJECTED, "CHECK_URL missing 'url'", &None));
    }
    Request::Answer(
        Outgoing::UrlScore {
            score: UNSCORED,
            label: "unscored".to_string(),
            reason: "URL scoring is not part of this build".to_string(),
        },
    )
}

/// The answer to a ping.
pub fn pong(version: &str, exe: &str, config: &Config) -> (r: Outgoing)
    ensures
        r@ == (OutgoingModel::Pong {
            version: version@,
            exe: exe@,
            quarantine_subdir: config.quarantine.subdir@,
        }),
{
    Outgoing::Pong {
        version: version.to_string(),
        exe: exe.to_string(),
        quarantine_subdir: config.quarantine.subdir.clone(),
    }
}

/// The verdict on a session that broke off: without a scan nothing is
/// released.
pub fn session_failed(session_id: &str, words: &str) -> (r: Outgoing)
    ensures
        r@ == native_messaging::plain_verdict(
            "BLOCKED"@,
            "Not released: scanning failed ("@ + words@ + ")"@,
            Some(session_id@),
        ),
{
    let mut verdict: String = "Not released: scanning failed (".to_string();
    verdict.append(words);
    verdict.append(")");
    send_verdict("BLOCKED", verdict.as_str(), &Some(session_id.to_string()))
}

// ---------------------------------------------------------------------------
// The path of a download
// ---------------------------------------------------------------------------

/// A stem without the number in brackets that the browser appends where a name
/// is taken.
pub open spec fn without_number(stem: Seq<char>) -> Seq<char> {
    match sequences::last_occurrence(stem, " ("@) {
        Some(i) if numbered_tail(stem.subrange(i + 2, stem.len() as int)) => stem.take(i),
        _ => stem,
    }
}

/// Digits and a closing bracket.
pub open spec fn numbered_tail(s: Seq<char>) -> bool {
    &&& s.len() > 0
    &&& s.last() == ')'
    &&& forall|i: int| 0 <= i < s.len() - 1 ==> '0' <= #[trigger] s[i] <= '9'
}

/// A file name that this host may have issued: its stem is a UUID, whatever
/// extension the browser gave it.
pub open spec fn issued_name(name: Seq<char>) -> bool {
    identifiers::uuid_text(without_number(quarantine::stem(name)))
}

/// Whether a text is digits and a closing bracket.
fn is_numbered_tail(s: &[char]) -> (r: bool)
    ensures
        r == numbered_tail(s@),
{
    let n: usize = s.len();
    if n == 0 || s[n - 1] != ')' {
        return false;
    }
    let mut i: usize = 0;
    while i < n - 1
        invariant
            n == s@.len(),
            n > 0,
            i <= n - 1,
            forall|j: int| 0 <= j < i ==> '0' <= #[trigger] s@[j] <= '9',
        decreases n - i,
    {
        if !('0' <= s[i] && s[i] <= '9') {
            assert(!('0' <= s@[i as int] <= '9'));
            return false;
        }
        i += 1;
    }
    true
}

/// Whether this host may have issued a file name.
pub fn is_issued_name(name: &str) -> (r: bool)
    ensures
        r == issued_name(name@),
{
    let chars = chars_of(name);
    let end: usize = match find_char(chars.as_slice(), '.') {
        Some(i) => i,
        None => chars.len(),
    };
    let stem = sequences::slice_to_vec(chars.as_slice(), 0, end);
    assert(stem@ =~= quarantine::stem(name@));
    let n: usize = stem.len();
    let mark = chars_of(" (");
    if let Some(i) = sequences::rfind(stem.as_slice(), mark.as_slice()) {
        proof {
            reveal_strlit(" (");
        }
        let tail = sequences::slice_to_vec(stem.as_slice(), i + 2, n);
        if is_numbered_tail(tail.as_slice()) {
            let head = substring(stem.as_slice(), 0, i);
            assert(head@ =~= stem@.take(i as int));
            return is_uuid(head.as_str());
        }
    }
    is_uuid(string_of(stem.as_slice()).as_str())
}

/// A path with its links resolved: how it is shown, and its components.
#[derive(Debug)]
pub struct ResolvedPath {
    pub shown: String,
    pub components: Vec<String>,
}

/// What a resolved path says.
pub struct ResolvedModel {
    pub shown: Seq<char>,
    pub components: Seq<Seq<char>>,
}

impl View for ResolvedPath {
    type V = ResolvedModel;

    open spec fn view(&self) -> ResolvedModel {
        ResolvedModel { shown: self.shown@, components: text::texts(self.components@) }
    }
}

/// A resolved path, or why it could not be resolved.
pub open spec fn resolved_view(r: Result<ResolvedPath, String>) -> Result<
    ResolvedModel,
    Seq<char>,
> {
    match r {
        Ok(p) => Ok(p@),
        Err(e) => Err(e@),
    }
}

/// What is known of the path of a download.
#[derive(Debug)]
pub struct ClaimedPath {
    /// The path as the message has it.
    pub claimed: String,
    /// The quarantine directory, as it is shown.
    pub root_shown: String,
    /// The quarantine directory, resolved.
    pub root: Result<ResolvedPath, String>,
    /// The directory that the path claims, resolved; none where the path has
    /// no directory.
    pub parent: Option<Result<ResolvedPath, String>>,
    /// The name behind the directory; none where the path has no name.
    pub file_name: Option<String>,
}

/// What is known of the path of a download.
pub struct ClaimedModel {
    pub claimed: Seq<char>,
    pub root_shown: Seq<char>,
    pub root: Result<ResolvedModel, Seq<char>>,
    pub parent: Option<Result<ResolvedModel, Seq<char>>>,
    pub file_name: Option<Seq<char>>,
}

impl View for ClaimedPath {
    type V = ClaimedModel;

    open spec fn view(&self) -> ClaimedModel {
        ClaimedModel {
            claimed: self.claimed@,
            root_shown: self.root_shown@,
            root: resolved_view(self.root),
            parent: match self.parent {
                Some(p) => Some(resolved_view(p)),
                None => None,
            },
            file_name: text::text_of(self.file_name),
        }
    }
}

/// A directory is the root or lies under it.
pub open spec fn within(dir: ResolvedModel, root: ResolvedModel) -> bool {
    sequences::begins_with(dir.components, root.components)
}

/// Why the path of a download is refused, if it is. Both directories are
/// compared with their links resolved, component by component.
pub open spec fn path_refusal(p: ClaimedModel) -> Option<Seq<char>> {
    match p.root {
        Err(words) => Some(
            "quarantine root "@ + p.root_shown + " does not exist or cannot be resolved: "@ + words,
        ),
        Ok(root) => match p.parent {
            None => Some("quarantine path has no parent directory"@),
            Some(Err(words)) => Some(
                "quarantine path parent "@ + text::quoted(p.claimed)
                    + " does not exist or cannot be resolved: "@ + words,
            ),
            Some(Ok(parent)) => if !within(parent, root) {
                Some(
                    "REJECTED: extension supplied a path outside the quarantine root. claimed="@
                        + text::quoted(p.claimed) + " resolved_parent="@ + parent.shown
                        + " root="@ + root.shown,
                )
            } else {
                match p.file_name {
                    None => Some("quarantine path has no filename component"@),
                    Some(name) => if !issued_name(name) {
                        Some(
                            "REJECTED: quarantine filename "@ + text::quoted(name)
                                + " does not start with a UUID issued by Aegis"@,
                        )
                    } else {
                        None
                    },
                }
            },
        },
    }
}

/// Whether a list of strings begins with another.
fn begins_with_list(list: &[String], start: &[String]) -> (r: bool)
    ensures
        r == sequences::begins_with(text::texts(list@), text::texts(start@)),
{
    let ghost whole = text::texts(list@);
    let ghost part = text::texts(start@);
    if list.len() < start.len() {
        return false;
    }
    let mut i: usize = 0;
    while i < start.len()
        invariant
            i <= start@.len() <= list@.len(),
            forall|j: int| 0 <= j < i ==> (#[trigger] list@[j])@ == start@[j]@,
        decreases start@.len() - i,
    {
        if !same(list[i].as_str(), start[i].as_str()) {
            assert(text::texts(list@)[i as int] != text::texts(start@)[i as int]);
            assert(text::texts(list@).take(start@.len() as int)[i as int] != text::texts(
                start@,
            )[i as int]);
            return false;
        }
        i += 1;
    }
    assert(whole.take(part.len() as int) =~= part);
    true
}

/// A path that was checked: the directory, as it was resolved, and the name.
#[derive(Debug)]
pub struct AcceptedPath {
    pub directory: String,
    pub file_name: String,
}

/// Checks the path of a download before anything is done with it: it must lie
/// in the quarantine directory, under a name that this host may have issued.
/// What comes back is the directory and the name that were checked.
pub fn validate_quarantine_path(p: &ClaimedPath) -> (r: Result<AcceptedPath, String>)
    ensures
        r is Ok <==> path_refusal(p@) is None,
        r matches Ok(a) ==> (p@.parent matches Some(Ok(parent)) && a.directory@ == parent.shown)
            && p@.file_name == Some(a.file_name@),
        r matches Err(words) ==> path_refusal(p@) == Some(words@),
{
    let root = match &p.root {
        Err(words) => {
            let mut out: String = "quarantine root ".to_string();
            out.append(p.root_shown.as_str());
            out.append(" does not exist or cannot be resolved: ");
            out.append(words.as_str());
            return Err(out);
        },
        Ok(root) => root,
    };
    let parent = match &p.parent {
        None => {
            return Err("quarantine path has no parent directory".to_string());
        },
        Some(Err(words)) => {
            let mut out: String = "quarantine path parent ".to_string();
            out.append(quote(p.claimed.as_str()).as_str());
            out.append(" does not exist or cannot be resolved: ");
            out.append(words.as_str());
            return Err(out);
        },
        Some(Ok(parent)) => parent,
    };
    if !begins_with_list(parent.components.as_slice(), root.components.as_slice()) {
        let mut out: String =
            "REJECTED: extension supplied a path outside the quarantine root. claimed=".to_string();
        out.append(quote(p.claimed.as_str()).as_str());
        out.append(" resolved_parent=");
        out.append(parent.shown.as_str());
        out.append(" root=");
        out.append(root.shown.as_str());
        return Err(out);
    }
    match &p.file_name {
        None => Err("quarantine path has no filename component".to_string()),
        Some(name) => if is_issued_name(name.as_str()) {
            Ok(AcceptedPath { directory: parent.shown.clone(), file_name: name.clone() })
        } else {
            let mut out: String = "REJECTED: quarantine filename ".to_string();
            out.append(quote(name.as_str()).as_str());
            out.append(" does not start with a UUID issued by Aegis");
            Err(out)
        },
    }
}

/// The answer to a message whose path is refused.
pub fn path_refused(session_id: &str, words: &str) -> (r: Outgoing)
    ensures
        r@ == native_messaging::plain_verdict(REJECTED@, words@, Some(session_id@)),
{
    send_verdict(REJECTED, words, &Some(session_id.to_string()))
}

// ---------------------------------------------------------------------------
// The end of a session
// ---------------------------------------------------------------------------

/// What came of the analysis of the complete file.
#[derive(Debug)]
pub enum WholeFile {
    /// It was not made: the file is too large.
    TooLarge,
    /// This was found.
    Scanned(ForensicResult),
    /// It failed.
    Failed(String),
    /// The file could not be read again.
    Unreadable(String),
}

/// What came of the analysis of the complete file.
pub enum WholeFileModel {
    TooLarge,
    Scanned(ForensicModel),
    Failed(Seq<char>),
    Unreadable(Seq<char>),
}

impl View for WholeFile {
    type V = WholeFileModel;

    open spec fn view(&self) -> WholeFileModel {
        match self {
            WholeFile::TooLarge => WholeFileModel::TooLarge,
            WholeFile::Scanned(result) => WholeFileModel::Scanned(result@),
            WholeFile::Failed(words) => WholeFileModel::Failed(words@),
            WholeFile::Unreadable(words) => WholeFileModel::Unreadable(words@),
        }
    }
}

/// Whether the complete file is analysed.
pub fn wants_whole_file(outcome: &WatchOutcome, config: &ChunkingConfig) -> (r: bool)
    ensures
        r == (outcome@.bytes_scanned <= config.max_whole_file_scan_bytes),
{
    outcome.bytes_scanned <= config.max_whole_file_scan_bytes
}

/// What the scan of the spans found.
pub open spec fn streamed(outcome: OutcomeModel) -> ForensicModel {
    ForensicModel {
        risk_score: outcome.risk_score,
        extension_mismatch: outcome.extension_mismatch,
        dangerous_intent: outcome.dangerous_intent,
        header_valid: outcome.header_valid,
        descriptions: outcome.descriptions,
        findings: finding::ordered(outcome.findings),
        ..scanner::blank()
    }
}

/// What is noted where the analysis of the complete file is missing.
pub open spec fn gap_note(
    outcome: OutcomeModel,
    whole: WholeFileModel,
    config: ChunkingConfig,
) -> Option<Seq<char>> {
    match whole {
        WholeFileModel::Scanned(_) => None,
        WholeFileModel::TooLarge => Some(
            "[note] "@ + numbers::decimal(outcome.bytes_scanned) + " bytes exceeds the "@
                + numbers::decimal(config.max_whole_file_scan_bytes as nat)
                + " byte whole-file analysis limit; polyglot, entropy and PE checks were skipped"@,
        ),
        WholeFileModel::Failed(words) => Some(
            "[warning] whole-file analysis could not run ("@ + words
                + "); verdict is based on streaming checks alone"@,
        ),
        WholeFileModel::Unreadable(words) => Some(
            "[warning] file could not be re-read for whole-file analysis ("@ + words
                + "); verdict is based on streaming checks alone"@,
        ),
    }
}

/// What both scans amount to. Where the second is missing, the gap is noted.
pub open spec fn assessed(
    outcome: OutcomeModel,
    whole: WholeFileModel,
    config: ChunkingConfig,
) -> ForensicModel {
    match whole {
        WholeFileModel::Scanned(result) => scanner::combination(streamed(outcome), result),
        _ => ForensicModel {
            descriptions: outcome.descriptions.push(gap_note(outcome, whole, config)->0),
            ..streamed(outcome)
        },
    }
}

/// What the scan of the spans found.
fn streaming_result(outcome: &WatchOutcome) -> (r: ForensicResult)
    ensures
        r@ == streamed(outcome@),
        r.risk_score == outcome.risk_score,
{
    let mut r = ForensicResult::default();
    r.risk_score = outcome.risk_score;
    r.extension_mismatch = outcome.extension_mismatch;
    r.dangerous_intent = outcome.dangerous_intent;
    r.header_valid = outcome.header_valid;
    r.descriptions = copy_list(outcome.descriptions.as_slice());
    r.findings = copy_findings(outcome.findings.as_slice());
    sort_by_severity(&mut r.findings);
    r
}

/// What is noted where the analysis of the complete file is missing.
fn gap_of(outcome: &WatchOutcome, whole: &WholeFile, config: &ChunkingConfig) -> (r: Option<String>)
    ensures
        text::text_of(r) == gap_note(outcome@, whole@, *config),
{
    match whole {
        WholeFile::Scanned(_) => None,
        WholeFile::TooLarge => {
            let mut out: String = "[note] ".to_string();
            push_decimal(&mut out, outcome.bytes_scanned);
            out.append(" bytes exceeds the ");
            push_decimal(&mut out, config.max_whole_file_scan_bytes);
            out.append(
                " byte whole-file analysis limit; polyglot, entropy and PE checks were skipped",
            );
            Some(out)
        },
        WholeFile::Failed(words) => {
            let mut out: String = "[warning] whole-file analysis could not run (".to_string();
            out.append(words.as_str());
            out.append("); verdict is based on streaming checks alone");
            Some(out)
        },
        WholeFile::Unreadable(words) => {
            let mut out: String =
                "[warning] file could not be re-read for whole-file analysis (".to_string();
            out.append(words.as_str());
            out.append("); verdict is based on streaming checks alone");
            Some(out)
        },
    }
}

/// What both scans amount to.
pub fn assess(outcome: &WatchOutcome, whole: &WholeFile, config: &ChunkingConfig) -> (r:
    ForensicResult)
    requires
        whole matches WholeFile::Scanned(result) ==> i64::MIN <= outcome.risk_score
            + result.risk_score,
    ensures
        r@ == assessed(outcome@, whole@, *config),
{
    broadcast use text::lemma_texts_push;

    let mut result = streaming_result(outcome);
    if let WholeFile::Scanned(found) = whole {
        return combine(&result, found);
    }
    if let Some(note) = gap_of(outcome, whole, config) {
        result.descriptions.push(note);
    }
    result
}

/// What becomes of a scanned file.
#[derive(Debug)]
pub enum Settlement {
    /// It is deleted, because of this decision, and this is answered.
    Refuse(Decision, Outgoing),
    /// It was not analysed to the end: it stays in quarantine, and this is
    /// answered.
    Withhold(Outgoing),
    /// It is released.
    Deliver,
}

/// What becomes of a scanned file.
pub enum SettlementModel {
    Refuse(Decision, OutgoingModel),
    Withhold(OutgoingModel),
    Deliver,
}

impl View for Settlement {
    type V = SettlementModel;

    open spec fn view(&self) -> SettlementModel {
        match self {
            Settlement::Refuse(decision, message) => SettlementModel::Refuse(*decision, message@),
            Settlement::Withhold(message) => SettlementModel::Withhold(message@),
            Settlement::Deliver => SettlementModel::Deliver,
        }
    }
}

/// How the verdict on a file begins that could not be analysed to the end.
pub const UNANALYSED: &'static str = "Not released: Aegis failed to analyse the complete file (";

/// How that verdict ends.
pub const UNANALYSED_WHY: &'static str = "). This is a failure of Aegis, not a finding about the \
     file.";

/// Why the analysis of a complete file is missing, where it was owed. A file
/// that is too large for it is owed none.
pub open spec fn analysis_failure(whole: WholeFileModel) -> Option<Seq<char>> {
    match whole {
        WholeFileModel::Failed(words) => Some(words),
        WholeFileModel::Unreadable(words) => Some(words),
        _ => None,
    }
}

/// The verdict that a file is not released.
pub open spec fn blocked(
    session_id: Seq<char>,
    verdict: Seq<char>,
    findings: Seq<FindingModel>,
) -> OutgoingModel {
    OutgoingModel::Verdict {
        status: "BLOCKED"@,
        verdict,
        session: Some(session_id),
        released_path: None,
        findings,
    }
}

/// The verdict on a confirmed detection.
pub open spec fn block_text(result: ForensicModel) -> Seq<char> {
    "Blocked. Risk "@ + numbers::risk_text(result.risk_score) + ". Signals: "@ + text::joined(
        result.descriptions,
        "; "@,
    )
}

/// How the verdict on a file that could not be cleared begins.
pub const HELD: &'static str = "Not released. Aegis found signals it could not clear, but this is \
     not a confirmed detection — risk ";

/// How that verdict goes on behind the threshold.
pub const HELD_WHY: &'static str = " threshold for one. Aegis does not run downloads to settle the \
     question, so the file is held rather than delivered. Signals: ";

/// The verdict on a file that could not be cleared, which is not called
/// malicious.
pub open spec fn held_text(result: ForensicModel, config: Config) -> Seq<char> {
    HELD@ + numbers::risk_text(result.risk_score) + ", below the "@ + numbers::risk_text(
        config.risk.block_threshold as int,
    ) + HELD_WHY@ + text::joined(result.descriptions, "; "@)
}

/// What becomes of a scanned file: only one of which nothing speaks against,
/// and which was analysed as far as is owed, is delivered.
pub open spec fn settlement(
    session_id: Seq<char>,
    result: ForensicModel,
    whole: WholeFileModel,
    config: Config,
) -> SettlementModel {
    match risk::decision(result.risk_score, config.risk) {
        Decision::Block => SettlementModel::Refuse(
            Decision::Block,
            blocked(session_id, block_text(result), result.findings),
        ),
        Decision::Inconclusive => SettlementModel::Refuse(
            Decision::Inconclusive,
            blocked(session_id, held_text(result, config), result.findings),
        ),
        Decision::Release => match analysis_failure(whole) {
            Some(words) => SettlementModel::Withhold(
                blocked(session_id, UNANALYSED@ + words + UNANALYSED_WHY@, result.findings),
            ),
            None => SettlementModel::Deliver,
        },
    }
}

/// The verdict that a file is not released.
fn send_blocked(session_id: &str, verdict: &str, result: &ForensicResult) -> (r: Outgoing)
    ensures
        r@ == blocked(session_id@, verdict@, result@.findings),
{
    send_final_verdict_with_findings(
        session_id,
        "BLOCKED",
        verdict,
        &None,
        result.findings.as_slice(),
    )
}

/// Why the analysis of a complete file is missing, where it was owed.
fn failure_of(whole: &WholeFile) -> (r: Option<&String>)
    ensures
        (match r {
            Some(words) => Some(words@),
            None => None,
        }) == analysis_failure(whole@),
{
    match whole {
        WholeFile::Failed(words) => Some(words),
        WholeFile::Unreadable(words) => Some(words),
        _ => None,
    }
}

/// Decides what becomes of a scanned file. `whole` is what came of the analysis
/// of the complete file.
pub fn settle(session_id: &str, result: &ForensicResult, whole: &WholeFile, config: &Config) -> (r:
    Settlement)
    ensures
        r@ == settlement(session_id@, result@, whole@, *config),
{
    match decide(result, &config.risk) {
        Decision::Block => {
            let mut verdict: String = "Blocked. Risk ".to_string();
            push_risk(&mut verdict, result.risk_score);
            verdict.append(". Signals: ");
            verdict.append(join(result.descriptions.as_slice(), "; ").as_str());
            Settlement::Refuse(
                Decision::Block,
                send_blocked(session_id, verdict.as_str(), result),
            )
        },
        Decision::Inconclusive => {
            let mut verdict: String = HELD.to_string();
            push_risk(&mut verdict, result.risk_score);
            verdict.append(", below the ");
            push_risk(&mut verdict, config.risk.block_threshold);
            verdict.append(HELD_WHY);
            verdict.append(join(result.descriptions.as_slice(), "; ").as_str());
            Settlement::Refuse(
                Decision::Inconclusive,
                send_blocked(session_id, verdict.as_str(), result),
            )
        },
        Decision::Release => match failure_of(whole) {
            Some(words) => {
                let mut verdict: String = UNANALYSED.to_string();
                verdict.append(words.as_str());
                verdict.append(UNANALYSED_WHY);
                Settlement::Withhold(send_blocked(session_id, verdict.as_str(), result))
            },
            None => Settlement::Deliver,
        },
    }
}

/// One clause about who signed a released file.
pub open spec fn provenance(status: Option<TrustModel>) -> Seq<char> {
    match status {
        Some(TrustModel::Trusted { publisher: Some(p) }) => " Signed by "@ + p + "."@,
        Some(TrustModel::Trusted { publisher: None }) => " Carries a valid signature."@,
        Some(TrustModel::TrustedByCatalog { .. }) => {
            " Verified against a signed Windows catalogue."@
        },
        Some(TrustModel::Unsigned) => {
            " Not digitally signed — its origin cannot be verified."@
        },
        _ => ""@,
    }
}

/// One clause about who signed a released file, where there is something to
/// say.
pub fn provenance_summary(status: &Option<TrustStatus>) -> (r: String)
    ensures
        r@ == provenance(signature::status_view(*status)),
{
    match status {
        Some(TrustStatus::Trusted { publisher }) => match publisher {
            Some(p) => {
                let mut out: String = " Signed by ".to_string();
                out.append(p.as_str());
                out.append(".");
                out
            },
            None => " Carries a valid signature.".to_string(),
        },
        Some(TrustStatus::TrustedByCatalog { .. }) => {
            " Verified against a signed Windows catalogue.".to_string()
        },
        Some(TrustStatus::Unsigned) => {
            " Not digitally signed — its origin cannot be verified.".to_string()
        },
        _ => "".to_string(),
    }
}

/// The verdict on a file that was released. `note` is what is noted of a missing
/// analysis.
pub open spec fn delivery(
    session_id: Seq<char>,
    result: ForensicModel,
    note: Option<Seq<char>>,
    path: Seq<char>,
    renamed: bool,
) -> OutgoingModel {
    OutgoingModel::Verdict {
        status: "COMPLETE"@,
        verdict: "Released to Downloads. Risk "@ + numbers::risk_text(result.risk_score) + "."@
            + provenance(result.signature_status) + (if renamed {
            " Renamed to avoid overwriting an existing file."@
        } else {
            ""@
        }) + (match note {
            Some(words) => " "@ + words,
            None => ""@,
        }),
        session: Some(session_id),
        released_path: Some(path),
        findings: result.findings,
    }
}

/// The verdict on a file that was released. Where the analysis of the complete
/// file was skipped, it says so.
pub fn delivered(
    session_id: &str,
    result: &ForensicResult,
    outcome: &WatchOutcome,
    whole: &WholeFile,
    config: &ChunkingConfig,
    released: &Released,
) -> (r: Outgoing)
    ensures
        r@ == delivery(
            session_id@,
            result@,
            gap_note(outcome@, whole@, *config),
            released.final_path@,
            released.renamed,
        ),
{
    let mut verdict: String = "Released to Downloads. Risk ".to_string();
    push_risk(&mut verdict, result.risk_score);
    verdict.append(".");
    verdict.append(provenance_summary(&result.signature_status).as_str());
    if released.renamed {
        verdict.append(" Renamed to avoid overwriting an existing file.");
    } else {
        verdict.append("");
    }
    match gap_of(outcome, whole, config) {
        Some(note) => {
            let mut words: String = " ".to_string();
            words.append(note.as_str());
            verdict.append(words.as_str());
        },
        None => verdict.append(""),
    }
    send_final_verdict_with_findings(
        session_id,
        "COMPLETE",
        verdict.as_str(),
        &Some(released.final_path.clone()),
        result.findings.as_slice(),
    )
}

/// The verdict on a file that passed but could not be released. It stays in
/// quarantine.
pub fn undelivered(session_id: &str, words: &str) -> (r: Outgoing)
    ensures
        r@ == native_messaging::plain_verdict(
            "ERROR"@,
            "File passed scanning but could not be released: "@ + words@,
            Some(session_id@),
        ),
{
    let mut verdict: String = "File passed scanning but could not be released: ".to_string();
    verdict.append(words);
    send_final_verdict(session_id, "ERROR", verdict.as_str(), &None)
}

/// The two messages that end a session in flight: the call to cancel the
/// download, and the verdict with what was found, the worst first.
pub fn early_block(session_id: &str, risk_score: i64, reason: &str, findings: &[Finding]) -> (r: (
    Outgoing,
    Outgoing,
))
    ensures
        r.0@ == (OutgoingModel::EarlyBlock {
            session_id: session_id@,
            risk_score: risk_score as int,
            reason: reason@,
        }),
        r.1@ == blocked(
            session_id@,
            "Blocked during download. "@ + reason@,
            finding::ordered(finding::models(findings@)),
        ),
{
    let mut verdict: String = "Blocked during download. ".to_string();
    verdict.append(reason);
    let mut sorted = copy_findings(findings);
    sort_by_severity(&mut sorted);
    (
        send_early_block(session_id, risk_score, reason),
        send_final_verdict_with_findings(
            session_id,
            "BLOCKED",
            verdict.as_str(),
            &None,
            sorted.as_slice(),
        ),
    )
}

// ---------------------------------------------------------------------------
// Laws
// ---------------------------------------------------------------------------

/// A download is watched only where a message asks for it and names a session
/// and a path.
pub proof fn law_a_download_is_watched_only_on_request(m: IncomingModel)
    ensures
        request_of(m) is Watch <==> m.kind == Some("WATCH_BEGIN"@) && given(m.session_id) && given(
            m.quarantine_path,
        ),
{
    reveal_strlit("PING");
    reveal_strlit("WATCH_BEGIN");
    reveal_strlit("START_DOWNLOAD");
    reveal_strlit("CHUNK");
    reveal_strlit("CHECK_URL");
}

/// Every message is answered: what is neither a ping, nor a proper request to
/// watch a download, nor a question about a link, is refused as malformed, and
/// a refusal releases nothing.
pub proof fn law_every_other_message_is_refused(m: IncomingModel)
    ensures
        request_of(m) matches RequestModel::Answer(message) ==> message == unscored() || (message
            matches OutgoingModel::Verdict { status, released_path, findings, .. } && status
            == REJECTED@ && released_path is None && findings.len() == 0),
        request_of(m) is Ping ==> m.kind == Some("PING"@),
{
}

/// The messages that streamed a download in chunks are refused, in the session
/// that they name.
pub proof fn law_the_chunk_protocol_is_refused(m: IncomingModel)
    requires
        m.kind == Some("START_DOWNLOAD"@) || m.kind == Some("CHUNK"@),
    ensures
        request_of(m) == refusal(RETIRED@, m.session_id),
{
    reveal_strlit("PING");
    reveal_strlit("WATCH_BEGIN");
    reveal_strlit("START_DOWNLOAD");
    reveal_strlit("CHUNK");
}

/// A path that is accepted lies in the quarantine directory, with all links
/// resolved, and ends in a name that this host may have issued.
pub proof fn law_an_accepted_path_lies_in_quarantine(p: ClaimedModel)
    requires
        path_refusal(p) is None,
    ensures
        p.root matches Ok(root) && (p.parent matches Some(Ok(parent)) && within(parent, root)),
        p.file_name matches Some(name) && issued_name(name),
{
}

/// A mark with a space does not stand in a text without one.
proof fn lemma_no_mark(s: Seq<char>, i: int)
    requires
        forall|k: int| 0 <= k < s.len() ==> #[trigger] s[k] != ' ',
    ensures
        !sequences::occurs_at(s, " ("@, i),
{
    reveal_strlit(" (");
    if sequences::occurs_at(s, " ("@, i) {
        assert(s.subrange(i, i + 2)[0] == s[i]);
    }
}

/// Whatever extension the browser gives a file, it is accepted under a UUID.
pub proof fn law_the_extension_does_not_matter(id: Seq<char>, extension: Seq<char>)
    requires
        identifiers::uuid_text(id),
    ensures
        issued_name(id),
        issued_name(id + "."@ + extension),
{
    reveal_strlit(".");
    identifiers::lemma_uuid_chars(id);
    let name = id + "."@ + extension;
    assert(name[id.len() as int] == '.');
    text::lemma_first_index(name, '.', id.len() as int);
    assert(quarantine::stem(name) =~= id);
    assert(!id.contains('.'));
    assert forall|i: int| !sequences::occurs_at(id, " ("@, i) by {
        lemma_no_mark(id, i);
    }
}

/// The number that the browser appends where a name is taken does not matter
/// either.
pub proof fn law_a_numbered_name_is_accepted(id: Seq<char>, n: nat, extension: Seq<char>)
    requires
        identifiers::uuid_text(id),
    ensures
        issued_name(id + " ("@ + numbers::decimal(n) + ")."@ + extension),
{
    reveal_strlit(" (");
    reveal_strlit(").");
    identifiers::lemma_uuid_chars(id);
    numbers::lemma_decimal_digits(n);
    let digits = numbers::decimal(n);
    let name = id + " ("@ + digits + ")."@ + extension;
    let stem = id + " ("@ + digits + seq![')'];
    let dot = stem.len() as int;
    assert(name[dot] == '.');
    assert(name.take(dot) =~= stem);
    assert forall|j: int| 0 <= j < dot implies name[j] != '.' by {
        assert(name[j] == stem[j]);
        if j < id.len() {
            assert(stem[j] == id[j]);
        } else if id.len() + 2 <= j < id.len() + 2 + digits.len() {
            assert(stem[j] == digits[j - id.len() - 2]);
        }
    }
    text::lemma_first_index(name, '.', dot);
    let at = id.len() as int;
    assert(stem.subrange(at, at + 2) =~= " ("@);
    assert forall|j: int| at < j implies !sequences::occurs_at(stem, " ("@, j) by {
        if sequences::occurs_at(stem, " ("@, j) {
            assert(stem.subrange(j, j + 2)[0] == stem[j]);
            if at + 2 <= j < at + 2 + digits.len() {
                assert(stem[j] == digits[j - at - 2]);
            }
        }
    }
    assert(sequences::last_at(stem, " ("@, at));
    sequences::lemma_last(stem, " ("@, at);
    let tail = stem.subrange(at + 2, stem.len() as int);
    assert(tail =~= digits + seq![')']);
    assert forall|j: int| 0 <= j < tail.len() - 1 implies '0' <= #[trigger] tail[j] <= '9' by {
        assert(tail[j] == digits[j]);
    }
    assert(stem.take(at) =~= id);
}

/// Only a file whose risk lies below both thresholds, and whose analysis did
/// not fail, is delivered.
pub proof fn law_only_a_cleared_file_is_delivered(
    session_id: Seq<char>,
    result: ForensicModel,
    whole: WholeFileModel,
    config: Config,
)
    ensures
        settlement(session_id, result, whole, config) is Deliver <==> result.risk_score
            < config.risk.block_threshold && result.risk_score < config.risk.sandbox_threshold
            && !(whole is Failed) && !(whole is Unreadable),
{
}

/// A missing analysis fails closed: where the complete file could not be read
/// or analysed, it is not delivered, whatever its spans scored. Where nothing
/// else speaks against it, the answer says that Aegis failed, and the file stays
/// in quarantine.
pub proof fn law_a_failed_analysis_delivers_nothing(
    session_id: Seq<char>,
    result: ForensicModel,
    whole: WholeFileModel,
    config: Config,
)
    requires
        whole is Failed || whole is Unreadable,
    ensures
        !(settlement(session_id, result, whole, config) is Deliver),
        settlement(session_id, result, whole, config) matches SettlementModel::Withhold(message)
            ==> message == blocked(
            session_id,
            UNANALYSED@ + analysis_failure(whole)->0 + UNANALYSED_WHY@,
            result.findings,
        ),
{
}

/// A file that is not delivered is answered as blocked; the answer names no
/// place where it could be, and carries every finding of both scans.
pub proof fn law_a_refused_file_is_answered_as_blocked(
    session_id: Seq<char>,
    result: ForensicModel,
    whole: WholeFileModel,
    config: Config,
)
    ensures
        match settlement(session_id, result, whole, config) {
            SettlementModel::Deliver => true,
            SettlementModel::Refuse(_, message) => message matches OutgoingModel::Verdict {
                status,
                session,
                released_path,
                findings,
                ..
            } && status == "BLOCKED"@ && session == Some(session_id) && released_path is None
                && findings == result.findings,
            SettlementModel::Withhold(message) => message matches OutgoingModel::Verdict {
                status,
                session,
                released_path,
                findings,
                ..
            } && status == "BLOCKED"@ && session == Some(session_id) && released_path is None
                && findings == result.findings,
        },
{
}

/// No finding of either scan is lost on the way to the verdict.
pub proof fn law_every_finding_reaches_the_verdict(
    outcome: OutcomeModel,
    whole: WholeFileModel,
    config: ChunkingConfig,
)
    ensures
        assessed(outcome, whole, config).findings.to_multiset() == (outcome.findings + match whole {
            WholeFileModel::Scanned(result) => result.findings,
            _ => Seq::empty(),
        }).to_multiset(),
{
    broadcast use vstd::seq_lib::group_to_multiset_ensures;

    finding::law_sorting_keeps_the_findings(outcome.findings);
    match whole {
        WholeFileModel::Scanned(result) => {
            let first = finding::ordered(outcome.findings);
            scanner::law_combining_keeps_the_findings(streamed(outcome), result);
            vstd::seq_lib::lemma_multiset_commutative(first, result.findings);
            vstd::seq_lib::lemma_multiset_commutative(outcome.findings, result.findings);
        },
        _ => {
            assert(outcome.findings + Seq::<FindingModel>::empty() =~= outcome.findings);
        },
    }
}

/// What the scan of the spans detected is not outvoted: whatever comes of the
/// complete file, the risk is at least as great.
pub proof fn law_a_detection_in_flight_stands(
    session_id: Seq<char>,
    outcome: OutcomeModel,
    whole: WholeFileModel,
    config: Config,
)
    requires
        outcome.risk_score <= numbers::RISK_ONE,
        whole matches WholeFileModel::Scanned(result) ==> result.risk_score >= 0,
    ensures
        assessed(outcome, whole, config.chunking).risk_score >= outcome.risk_score,
        risk::decision(outcome.risk_score, config.risk) != Decision::Release ==> !(settlement(
            session_id,
            assessed(outcome, whole, config.chunking),
            whole,
            config,
        ) is Deliver),
{
}

/// Where a file is too large for the analysis of the whole, the scan of its
/// spans stands on its own, and the gap is noted: among the signals that a
/// refusal lists, and at the end of the verdict on a delivery.
pub proof fn law_a_skipped_analysis_is_noted(
    session_id: Seq<char>,
    outcome: OutcomeModel,
    config: ChunkingConfig,
    path: Seq<char>,
    renamed: bool,
)
    ensures
        assessed(outcome, WholeFileModel::TooLarge, config).risk_score == outcome.risk_score,
        gap_note(outcome, WholeFileModel::TooLarge, config) matches Some(note) && {
            &&& assessed(outcome, WholeFileModel::TooLarge, config).descriptions.last() == note
            &&& delivery(
                session_id,
                assessed(outcome, WholeFileModel::TooLarge, config),
                Some(note),
                path,
                renamed,
            ) matches OutgoingModel::Verdict { verdict, .. } && sequences::finishes_with(
                verdict,
                note,
            )
        },
{
    let result = assessed(outcome, WholeFileModel::TooLarge, config);
    let note = gap_note(outcome, WholeFileModel::TooLarge, config)->0;
    let verdict = delivery(session_id, result, Some(note), path, renamed)->verdict;
    assert(verdict.subrange(verdict.len() - note.len(), verdict.len() as int) =~= note);
}

/// Every verdict on a watched download lists its findings with the most serious
/// first.
pub proof fn law_the_worst_finding_is_shown_first(
    outcome: OutcomeModel,
    whole: WholeFileModel,
    config: ChunkingConfig,
)
    ensures
        finding::in_order(assessed(outcome, whole, config).findings),
{
    finding::law_sorted_findings_are_in_order(outcome.findings);
    if let WholeFileModel::Scanned(result) = whole {
        finding::law_sorted_findings_are_in_order(
            finding::ordered(outcome.findings) + result.findings,
        );
    }
}

/// A signature settles a weak case, never a strong one: where a span of the
/// download showed something serious, nothing is taken off the risk of the
/// complete file, whoever signed it.
pub proof fn law_a_signature_does_not_outweigh_the_spans(
    outcome: OutcomeModel,
    a: scanner::Analyses,
    config: ChunkingConfig,
    i: int,
)
    requires
        0 <= i < outcome.findings.len(),
        signature::serious(outcome.findings[i]),
    ensures
        assessed(outcome, WholeFileModel::Scanned(scanner::file_result(a)), config).risk_score
            == scanner::capped_sum(outcome.risk_score, scanner::greatest_risk(a)),
{
    signature::lemma_sorting_keeps_the_serious(outcome.findings, i);
    scanner::law_a_signature_does_not_rescue_a_serious_span(streamed(outcome), a);
}

/// A place where the file is stands only in the verdict on a delivery, and only
/// that verdict says that a session is complete.
pub proof fn law_only_a_delivery_names_a_place(
    session_id: Seq<char>,
    result: ForensicModel,
    note: Option<Seq<char>>,
    path: Seq<char>,
    renamed: bool,
    words: Seq<char>,
    findings: Seq<FindingModel>,
)
    ensures
        delivery(session_id, result, note, path, renamed) matches OutgoingModel::Verdict {
            status,
            released_path,
            ..
        } && status == "COMPLETE"@ && released_path == Some(path),
        blocked(session_id, words, findings) matches OutgoingModel::Verdict {
            status,
            released_path,
            ..
        } && status != "COMPLETE"@ && released_path is None,
{
    reveal_strlit("COMPLETE");
    reveal_strlit("BLOCKED");
    assert("COMPLETE"@.len() != "BLOCKED"@.len());
}

/// From the first byte to the last: where any span of a download, scanned as
/// it arrived, reached the lower threshold, the file is not delivered, whatever
/// the other spans and the analysis of the complete file say.
pub proof fn law_a_risky_span_is_never_delivered(
    session_id: Seq<char>,
    m: watcher::WatcherModel,
    spans: Seq<Seq<u8>>,
    i: int,
    whole: WholeFileModel,
    config: Config,
)
    requires
        0 <= i < spans.len(),
        watcher::scanned(watcher::watched(m, spans.take(i)), spans[i]).risk_score
            >= config.risk.sandbox_threshold,
        whole matches WholeFileModel::Scanned(result) ==> result.risk_score >= 0,
    ensures
        !(settlement(
            session_id,
            assessed(watcher::outcome(watcher::watched(m, spans)), whole, config.chunking),
            whole,
            config,
        ) is Deliver),
{
    watcher::law_no_span_is_forgotten(m, spans, i);
    risk::law_aggregate_is_bounded(watcher::watched(m, spans).scores);
}

/// A complete file whose analysis reached the lower threshold is not delivered
/// either, however harmless its spans were.
pub proof fn law_a_risky_file_is_never_delivered(
    session_id: Seq<char>,
    m: watcher::WatcherModel,
    result: ForensicModel,
    config: Config,
)
    requires
        result.risk_score >= config.risk.sandbox_threshold,
        config.risk.sandbox_threshold <= numbers::RISK_ONE,
    ensures
        !(settlement(
            session_id,
            assessed(watcher::outcome(m), WholeFileModel::Scanned(result), config.chunking),
            WholeFileModel::Scanned(result),
            config,
        ) is Deliver),
{
    risk::law_aggregate_is_bounded(m.scores);
}

/// The members of a message are read by their names, where they are texts, and
/// nothing else of it is.
pub proof fn law_a_message_is_read_by_its_members(members: Map<Seq<char>, json::Json>)
    ensures
        ({
            let m = incoming_of(json::Json::Object(members));
            &&& m.kind is Some <==> members.contains_key("type"@) && members["type"@] is Text
            &&& m.kind is Some ==> members["type"@] == json::Json::Text(m.kind->0)
            &&& m.session_id is Some ==> members["session_id"@] == json::Json::Text(
                m.session_id->0,
            )
            &&& m.session_id is Some <==> members.contains_key("session_id"@)
                && members["session_id"@] is Text
            &&& m.quarantine_path is Some ==> members["quarantine_path"@] == json::Json::Text(
                m.quarantine_path->0,
            )
            &&& m.quarantine_path is Some <==> members.contains_key("quarantine_path"@)
                && members["quarantine_path"@] is Text
            &&& m.original_filename is Some ==> members["original_filename"@] == json::Json::Text(
                m.original_filename->0,
            )
            &&& m.original_filename is Some <==> members.contains_key("original_filename"@)
                && members["original_filename"@] is Text
            &&& m.url is Some <==> members.contains_key("url"@) && members["url"@] is Text
        }),
{
}

/// Each request gets its own answer: a ping a sign of life, a request to watch
/// the download that it names, a question about a link that it is not scored,
/// and anything else a refusal that says what is wrong.
pub proof fn law_each_request_gets_its_answer(m: IncomingModel)
    ensures
        m.kind == Some("PING"@) ==> request_of(m) is Ping,
        m.kind == Some("WATCH_BEGIN"@) && given(m.session_id) && given(m.quarantine_path) ==> (
        request_of(m) matches RequestModel::Watch {
            session_id,
            quarantine_path,
            original_filename,
        } && m.session_id == Some(session_id) && m.quarantine_path == Some(quarantine_path)
            && original_filename == match m.original_filename {
            Some(name) => name,
            None => "download.bin"@,
        }),
        m.kind == Some("WATCH_BEGIN"@) && !given(m.session_id) ==> request_of(m) == refusal(
            "WATCH_BEGIN missing 'session_id'"@,
            None,
        ),
        m.kind == Some("WATCH_BEGIN"@) && given(m.session_id) && !given(m.quarantine_path)
            ==> request_of(m) == refusal("WATCH_BEGIN missing 'quarantine_path'"@, m.session_id),
        m.kind == Some("CHECK_URL"@) && m.url is Some ==> (request_of(m) matches
            RequestModel::Answer(OutgoingModel::UrlScore { score, label, .. }) && score == 5_000
            && label == "unscored"@),
        m.kind == Some("CHECK_URL"@) && m.url is None ==> request_of(m) == refusal(
            "CHECK_URL missing 'url'"@,
            None,
        ),
        m.kind is None ==> request_of(m) == refusal("Message missing 'type' field"@, None),
        (m.kind matches Some(kind) && kind != "PING"@ && kind != "WATCH_BEGIN"@ && kind
            != "START_DOWNLOAD"@ && kind != "CHUNK"@ && kind != "CHECK_URL"@) ==> request_of(m)
            == refusal("Unknown message type: "@ + m.kind->0, m.session_id),
{
    reveal_strlit("PING");
    reveal_strlit("WATCH_BEGIN");
    reveal_strlit("START_DOWNLOAD");
    reveal_strlit("CHUNK");
    reveal_strlit("CHECK_URL");
    assert("PING"@.len() == 4 && "WATCH_BEGIN"@.len() == 11 && "START_DOWNLOAD"@.len() == 14
        && "CHUNK"@.len() == 5 && "CHECK_URL"@.len() == 9);
}

/// A text is given where it is there and not empty.
pub proof fn law_an_empty_text_is_not_given(s: Option<Seq<char>>)
    ensures
        given(s) <==> s is Some && s->0.len() > 0,
{
}

/// A path lies within a directory where its components begin with all of the
/// directory's, in order.
pub proof fn law_what_lies_within(dir: ResolvedModel, root: ResolvedModel)
    ensures
        within(dir, root) <==> root.components.len() <= dir.components.len() && forall|i: int|
            0 <= i < root.components.len() ==> #[trigger] root.components[i] == dir.components[i],
{
    let n = root.components.len() as int;
    if n <= dir.components.len() {
        let part = dir.components.subrange(0, n);
        if forall|i: int|
            0 <= i < root.components.len() ==> #[trigger] root.components[i] == dir.components[i] {
            assert(part =~= root.components);
        }
        if part == root.components {
            assert forall|i: int| 0 <= i < n implies #[trigger] root.components[i]
                == dir.components[i] by {
                assert(part[i] == dir.components[i]);
            }
        }
    }
}

/// A proper path is accepted, and every other is refused with what is wrong with
/// it: a directory that cannot be resolved, one outside the quarantine, a
/// missing name, and a name that this host did not issue.
pub proof fn law_which_paths_are_accepted(p: ClaimedModel)
    ensures
        path_refusal(p) is None <==> (p.root matches Ok(root) && (p.parent matches Some(Ok(parent))
            && within(parent, root)) && (p.file_name matches Some(name) && issued_name(name))),
        (p.root matches Ok(root) && (p.parent matches Some(Ok(parent)) && !within(parent, root)))
            ==> (path_refusal(p) matches Some(words) && sequences::occurs(
            words,
            "outside the quarantine root"@,
        )),
{
    if let Ok(root) = p.root {
        if let Some(Ok(parent)) = p.parent {
            if !within(parent, root) {
                let words = path_refusal(p)->0;
                let all = "REJECTED: extension supplied a path outside the quarantine root. claimed="@;
                let part = "outside the quarantine root"@;
                reveal_strlit(
                    "REJECTED: extension supplied a path outside the quarantine root. claimed=",
                );
                reveal_strlit("outside the quarantine root");
                assert(all.len() == 73 && part.len() == 27);
                assert(words.subrange(36, 63) =~= part);
                assert(sequences::occurs_at(words, part, 36));
            }
        }
    }
}

/// A name that is accepted starts with a UUID: in plain digits, with hyphens, in
/// braces or as a URN.
pub proof fn law_an_issued_name_starts_with_a_uuid(name: Seq<char>)
    requires
        issued_name(name),
    ensures
        exists|n: int| 32 <= n <= 45 && n <= name.len() && identifiers::uuid_text(#[trigger] name.take(n)),
{
    let stem = quarantine::stem(name);
    let id = without_number(stem);
    sequences::law_a_search_finds_what_is_there(stem, " ("@);
    if name.contains('.') {
        let k = text::lemma_first_index_exists(name, '.');
        text::lemma_first_index(name, '.', k);
        assert(stem =~= name.take(k));
    } else {
        assert(stem =~= name.take(name.len() as int));
    }
    assert(id =~= name.take(id.len() as int));
}

/// A file is refused, withheld or delivered by its risk and by what came of its
/// analysis, and each refusal says which it is: a block above the upper
/// threshold, and below it a file that could not be cleared, which is not called
/// blocked. Both list every signal.
pub proof fn law_what_becomes_of_a_file(
    session_id: Seq<char>,
    result: ForensicModel,
    whole: WholeFileModel,
    config: Config,
)
    requires
        config.risk.sandbox_threshold <= config.risk.block_threshold,
    ensures
        ({
            let s = settlement(session_id, result, whole, config);
            let signals = text::joined(result.descriptions, "; "@);
            &&& result.risk_score >= config.risk.block_threshold ==> (s matches
                SettlementModel::Refuse(Decision::Block, OutgoingModel::Verdict { verdict, .. })
                && sequences::begins_with(verdict, "Blocked. Risk "@) && sequences::finishes_with(
                verdict,
                signals,
            ))
            &&& config.risk.sandbox_threshold <= result.risk_score < config.risk.block_threshold
                ==> (s matches SettlementModel::Refuse(
                Decision::Inconclusive,
                OutgoingModel::Verdict { verdict, .. },
            ) && sequences::begins_with(verdict, "Not released. "@) && sequences::finishes_with(
                verdict,
                signals,
            ))
            &&& result.risk_score < config.risk.sandbox_threshold && (whole is Failed || whole
                is Unreadable) ==> s is Withhold
            &&& result.risk_score < config.risk.sandbox_threshold && (whole is Scanned || whole
                is TooLarge) ==> s is Deliver
        }),
{
    let signals = text::joined(result.descriptions, "; "@);
    let a = block_text(result);
    let b = held_text(result, config);
    assert(a.subrange(a.len() - signals.len(), a.len() as int) =~= signals);
    assert(b.subrange(b.len() - signals.len(), b.len() as int) =~= signals);
    assert(a.subrange(0, "Blocked. Risk "@.len() as int) =~= "Blocked. Risk "@);
    reveal_strlit("Not released. ");
    lemma_held_begins();
    assert(b.subrange(0, 14) =~= HELD@.subrange(0, 14));
}

/// The verdict on a file that could not be cleared begins with what it is not.
proof fn lemma_held_begins()
    ensures
        HELD@.len() >= 14,
        HELD@.subrange(0, 14) == "Not released. "@,
{
    reveal_strlit("Not released. ");
    reveal_strlit(
        "Not released. Aegis found signals it could not clear, but this is \
     not a confirmed detection — risk ",
    );
    assert(HELD@.subrange(0, 14) =~= "Not released. "@);
}

/// What the spans showed of a download is kept, whatever comes of the analysis
/// of the complete file: the signs, and every description.
pub proof fn law_what_the_spans_showed_is_kept(
    outcome: OutcomeModel,
    whole: WholeFileModel,
    config: ChunkingConfig,
)
    ensures
        ({
            let r = assessed(outcome, whole, config);
            &&& r.header_valid == outcome.header_valid
            &&& r.extension_mismatch == outcome.extension_mismatch
            &&& r.dangerous_intent == outcome.dangerous_intent
            &&& forall|i: int|
                0 <= i < outcome.descriptions.len() ==> r.descriptions[i]
                    == #[trigger] outcome.descriptions[i]
            &&& whole matches WholeFileModel::Scanned(result) ==> r.signature_status
                == result.signature_status && r.auto_execution == result.auto_execution
                && r.structural_anomaly == result.structural_anomaly && r.pe_anomaly
                == result.pe_anomaly && r.entropy_anomaly == result.entropy_anomaly
            &&& !(whole is Scanned) ==> r.risk_score == outcome.risk_score
        }),
{
    if let WholeFileModel::Scanned(result) = whole {
        scanner::law_both_scans_keep_their_signs(streamed(outcome), result);
    }
}

/// A gap in the analysis is noted wherever there is one, with what caused it.
pub proof fn law_every_gap_is_noted(
    outcome: OutcomeModel,
    whole: WholeFileModel,
    config: ChunkingConfig,
)
    ensures
        gap_note(outcome, whole, config) is None <==> whole is Scanned,
        gap_note(outcome, whole, config) matches Some(note) ==> assessed(
            outcome,
            whole,
            config,
        ).descriptions == outcome.descriptions.push(note),
        whole matches WholeFileModel::Failed(words) ==> sequences::occurs(
            gap_note(outcome, whole, config)->0,
            words,
        ),
        whole matches WholeFileModel::Unreadable(words) ==> sequences::occurs(
            gap_note(outcome, whole, config)->0,
            words,
        ),
{
    if let WholeFileModel::Failed(words) = whole {
        let note = gap_note(outcome, whole, config)->0;
        let lead = "[warning] whole-file analysis could not run ("@;
        assert(note.subrange(lead.len() as int, (lead.len() + words.len()) as int) =~= words);
        assert(sequences::occurs_at(note, words, lead.len() as int));
    }
    if let WholeFileModel::Unreadable(words) = whole {
        let note = gap_note(outcome, whole, config)->0;
        let lead = "[warning] file could not be re-read for whole-file analysis ("@;
        assert(note.subrange(lead.len() as int, (lead.len() + words.len()) as int) =~= words);
        assert(sequences::occurs_at(note, words, lead.len() as int));
    }
}

/// A delivery says that the file was released, at what risk, who signed it, and
/// carries every finding of its result to the session that it belongs to.
pub proof fn law_a_delivery_carries_its_findings(
    session_id: Seq<char>,
    result: ForensicModel,
    note: Option<Seq<char>>,
    path: Seq<char>,
    renamed: bool,
)
    ensures
        delivery(session_id, result, note, path, renamed) matches OutgoingModel::Verdict {
            verdict,
            session,
            findings,
            ..
        } && session == Some(session_id) && findings == result.findings && sequences::begins_with(
            verdict,
            "Released to Downloads. Risk "@ + numbers::risk_text(result.risk_score) + "."@
                + provenance(result.signature_status),
        ),
{
    let lead = "Released to Downloads. Risk "@ + numbers::risk_text(result.risk_score) + "."@
        + provenance(result.signature_status);
    let verdict = delivery(session_id, result, note, path, renamed)->verdict;
    assert(verdict.subrange(0, lead.len() as int) =~= lead);
}

/// A delivery names the signer that was verified, says that nobody signed a
/// program, and is silent where there is nothing to say.
pub proof fn law_who_signed_is_told(status: Option<TrustModel>)
    ensures
        status matches Some(TrustModel::Trusted { publisher: Some(p) }) ==> sequences::occurs(
            provenance(status),
            p,
        ),
        status is None || status->0 is Unavailable || status->0 is Tampered || status->0
            is Distrusted || status->0 is Expired || status->0 is UntrustedRoot
            ==> provenance(status).len() == 0,
        status is Some && (status->0 is Trusted || status->0 is TrustedByCatalog || status->0
            is Unsigned) ==> provenance(status).len() > 0,
        status matches Some(TrustModel::Unsigned) ==> sequences::begins_with(
            provenance(status),
            " Not digitally signed"@,
        ),
{
    reveal_strlit("");
    reveal_strlit(" Signed by ");
    reveal_strlit(" Carries a valid signature.");
    reveal_strlit(" Verified against a signed Windows catalogue.");
    reveal_strlit(" Not digitally signed — its origin cannot be verified.");
    reveal_strlit(" Not digitally signed");
    if let Some(TrustModel::Trusted { publisher: Some(p) }) = status {
        let t = provenance(status);
        assert(t.subrange(11, (11 + p.len()) as int) =~= p);
        assert(sequences::occurs_at(t, p, 11));
    }
    if let Some(TrustModel::Unsigned) = status {
        let t = provenance(status);
        assert(t.subrange(0, 21) =~= " Not digitally signed"@);
    }
}

/// Behind the UUID of a name, up to its first dot, stands nothing or a number in
/// brackets: a space, an opening bracket, digits and a closing one.
pub proof fn law_only_a_number_follows_the_uuid(name: Seq<char>)
    requires
        issued_name(name),
    ensures
        ({
            let stem = quarantine::stem(name);
            exists|n: int|
                0 <= n <= stem.len() && identifiers::uuid_text(#[trigger] stem.take(n)) && (n
                    == stem.len() || (n + 3 <= stem.len() && stem[n] == ' ' && stem[n + 1] == '('
                    && stem.last() == ')' && forall|i: int|
                    n + 2 <= i < stem.len() - 1 ==> '0' <= #[trigger] stem[i] <= '9'))
        }),
{
    let stem = quarantine::stem(name);
    let id = without_number(stem);
    let mark = " ("@;
    reveal_strlit(" (");
    sequences::law_a_search_finds_what_is_there(stem, mark);
    if id == stem {
        assert(stem.take(stem.len() as int) =~= stem);
    } else {
        let i = sequences::last_occurrence(stem, mark)->0;
        let tail = stem.subrange(i + 2, stem.len() as int);
        let part = stem.subrange(i, i + 2);
        assert(part[0] == stem[i] && part[1] == stem[i + 1]);
        assert(tail.last() == stem.last());
        assert forall|k: int| i + 2 <= k < stem.len() - 1 implies '0' <= #[trigger] stem[k]
            <= '9' by {
            assert(tail[k - i - 2] == stem[k]);
        }
        assert(identifiers::uuid_text(stem.take(i)));
    }
}

} // verus!
