//! Native messaging: a stream of frames, each a length of four bytes, low byte
//! first, and a body of JSON text.
//!
//! A frame has a body of at least one byte and at most `MAX_MESSAGE_BYTES`, in
//! either direction. A length outside that range is refused on the header
//! alone, before anything is reserved for the body.
use crate::bytes;
use crate::bytes::u32_at;
use crate::json;
use crate::json::{encode, parse, Json, MAX_NESTING};
use crate::numbers;
use crate::numbers::push_decimal;
use crate::scanner::finding;
use crate::scanner::finding::{copy_findings, Finding, FindingModel};
use crate::sequences::slice_to_vec;
use crate::text;
use crate::text::copy_of;
use serde_json::Value;
use vstd::prelude::*;

verus! {

/// Longest body of a frame.
pub const MAX_MESSAGE_BYTES: u32 = 1_048_576;

// ---------------------------------------------------------------------------
// Frames
// ---------------------------------------------------------------------------

/// Why a frame is refused.
#[derive(Debug)]
pub enum FrameError {
    /// The header claims a body that is too long.
    TooLong(u32),
    /// The header claims no body.
    Empty,
    /// The stream ended within the body.
    Truncated,
    /// The body is not JSON, with the words of the parser.
    NotJson(String),
    /// A body of this length is too long to be sent.
    OutgoingTooLong(u64),
    /// A message could not be written as JSON, with the words of the writer.
    Unwritable(String),
}

/// What a refusal says.
pub enum FrameFault {
    TooLong(u32),
    Empty,
    Truncated,
    NotJson(Seq<char>),
    OutgoingTooLong(u64),
    Unwritable(Seq<char>),
}

impl View for FrameError {
    type V = FrameFault;

    open spec fn view(&self) -> FrameFault {
        match self {
            FrameError::TooLong(n) => FrameFault::TooLong(*n),
            FrameError::Empty => FrameFault::Empty,
            FrameError::Truncated => FrameFault::Truncated,
            FrameError::NotJson(words) => FrameFault::NotJson(words@),
            FrameError::OutgoingTooLong(n) => FrameFault::OutgoingTooLong(*n),
            FrameError::Unwritable(words) => FrameFault::Unwritable(words@),
        }
    }
}

/// How a refusal is put into words.
pub open spec fn fault_text(fault: FrameFault) -> Seq<char> {
    match fault {
        FrameFault::TooLong(n) => "Incoming message length "@ + numbers::decimal(n as nat)
            + " exceeds maximum allowed "@ + numbers::decimal(MAX_MESSAGE_BYTES as nat)
            + " bytes — rejecting as malformed"@,
        FrameFault::Empty => "Incoming message length is 0 — rejecting as malformed"@,
        FrameFault::Truncated => "Failed to read message body from stdin"@,
        FrameFault::NotJson(words) => "Failed to parse incoming message as JSON: "@ + words,
        FrameFault::OutgoingTooLong(n) => "Outgoing message length "@ + numbers::decimal(n as nat)
            + " exceeds maximum allowed "@ + numbers::decimal(MAX_MESSAGE_BYTES as nat)
            + " bytes"@,
        FrameFault::Unwritable(words) => "Failed to serialize outgoing message: "@ + words,
    }
}

impl FrameError {
    /// The refusal in words.
    pub fn message(&self) -> (r: String)
        ensures
            r@ == fault_text(self@),
    {
        match self {
            FrameError::TooLong(n) => {
                let mut out: String = "Incoming message length ".to_string();
                push_decimal(&mut out, *n as u64);
                out.append(" exceeds maximum allowed ");
                push_decimal(&mut out, MAX_MESSAGE_BYTES as u64);
                out.append(" bytes — rejecting as malformed");
                out
            },
            FrameError::Empty => {
                "Incoming message length is 0 — rejecting as malformed".to_string()
            },
            FrameError::Truncated => "Failed to read message body from stdin".to_string(),
            FrameError::NotJson(words) => {
                let mut out: String = "Failed to parse incoming message as JSON: ".to_string();
                out.append(words.as_str());
                out
            },
            FrameError::OutgoingTooLong(n) => {
                let mut out: String = "Outgoing message length ".to_string();
                push_decimal(&mut out, *n);
                out.append(" exceeds maximum allowed ");
                push_decimal(&mut out, MAX_MESSAGE_BYTES as u64);
                out.append(" bytes");
                out
            },
            FrameError::Unwritable(words) => {
                let mut out: String = "Failed to serialize outgoing message: ".to_string();
                out.append(words.as_str());
                out
            },
        }
    }
}

/// The length of the body that a header announces. A stream that ends within
/// the header has been closed.
pub open spec fn announced(header: Seq<u8>) -> Result<Option<u32>, FrameFault> {
    match bytes::word32(header, 0) {
        None => Ok(None),
        Some(n) => if n > MAX_MESSAGE_BYTES {
            Err(FrameFault::TooLong(n))
        } else if n == 0 {
            Err(FrameFault::Empty)
        } else {
            Ok(Some(n))
        },
    }
}

/// A length, or why the frame is refused.
pub open spec fn length_view(r: Result<Option<u32>, FrameError>) -> Result<
    Option<u32>,
    FrameFault,
> {
    match r {
        Ok(n) => Ok(n),
        Err(e) => Err(e@),
    }
}

/// The length of the body that a header announces.
pub fn body_length(header: &[u8]) -> (r: Result<Option<u32>, FrameError>)
    ensures
        length_view(r) == announced(header@),
{
    match u32_at(header, 0) {
        None => Ok(None),
        Some(n) => if n > MAX_MESSAGE_BYTES {
            Err(FrameError::TooLong(n))
        } else if n == 0 {
            Err(FrameError::Empty)
        } else {
            Ok(Some(n))
        },
    }
}

/// The body of the frame at the start of some input.
pub open spec fn body_of(input: Seq<u8>) -> Result<Option<Seq<u8>>, FrameFault> {
    match announced(input) {
        Err(fault) => Err(fault),
        Ok(None) => Ok(None),
        Ok(Some(n)) => if input.len() < 4 + n {
            Err(FrameFault::Truncated)
        } else {
            Ok(Some(input.subrange(4, 4 + n)))
        },
    }
}

/// The message in a body.
pub open spec fn message_of(body: Seq<u8>) -> Result<Json, FrameFault> {
    match json::parsed(body) {
        Ok(m) => Ok(m),
        Err(words) => Err(FrameFault::NotJson(words)),
    }
}

/// The message in the frame at the start of some input, and the length of the
/// frame.
pub open spec fn frame_of(input: Seq<u8>) -> Result<
    Option<(Json, nat)>,
    FrameFault,
> {
    match body_of(input) {
        Err(fault) => Err(fault),
        Ok(None) => Ok(None),
        Ok(Some(body)) => match message_of(body) {
            Err(fault) => Err(fault),
            Ok(m) => Ok(Some((m, 4 + body.len()))),
        },
    }
}

/// Parses the body of a frame.
pub fn parse_body(body: &[u8]) -> (r: Result<Value, FrameError>)
    ensures
        (match r {
            Ok(value) => Ok(json::json(value)),
            Err(e) => Err(e@),
        }) == message_of(body@),
{
    match parse(body) {
        Ok(value) => Ok(value),
        Err(words) => Err(FrameError::NotJson(words)),
    }
}

/// A message and the length of its frame.
pub struct Frame {
    pub value: Value,
    pub length: usize,
}

/// Cuts the body out of the frame at the start of some input.
pub fn frame_body(input: &[u8]) -> (r: Result<Option<Vec<u8>>, FrameError>)
    ensures
        (match r {
            Ok(Some(body)) => Ok(Some(body@)),
            Ok(None) => Ok(None),
            Err(e) => Err(e@),
        }) == body_of(input@),
{
    match body_length(input) {
        Err(e) => Err(e),
        Ok(None) => Ok(None),
        Ok(Some(n)) => {
            let length: usize = input.len();
            if length - 4 < n as usize {
                Err(FrameError::Truncated)
            } else {
                Ok(Some(slice_to_vec(input, 4, 4 + n as usize)))
            }
        },
    }
}

/// Reads the frame at the start of some input. There is none where the input
/// ends within the header: the stream has been closed.
pub fn read_frame(input: &[u8]) -> (r: Result<Option<Frame>, FrameError>)
    ensures
        (match r {
            Ok(Some(frame)) => Ok(Some((json::json(frame.value), frame.length as nat))),
            Ok(None) => Ok(None),
            Err(e) => Err(e@),
        }) == frame_of(input@),
{
    match frame_body(input) {
        Err(e) => Err(e),
        Ok(None) => Ok(None),
        Ok(Some(body)) => match parse_body(body.as_slice()) {
            Err(e) => Err(e),
            Ok(value) => Ok(Some(Frame { value, length: 4 + body.len() })),
        },
    }
}

/// The frame of a body that is to be sent.
pub open spec fn framed(body: Seq<u8>) -> Result<Seq<u8>, FrameFault> {
    if body.len() > MAX_MESSAGE_BYTES {
        Err(FrameFault::OutgoingTooLong(body.len() as u64))
    } else {
        Ok(bytes::bytes32(body.len() as u32) + body)
    }
}

/// The frame of a body that is to be sent.
pub fn frame_bytes(body: &[u8]) -> (r: Result<Vec<u8>, FrameError>)
    ensures
        (match r {
            Ok(frame) => Ok(frame@),
            Err(e) => Err(e@),
        }) == framed(body@),
{
    let n: usize = body.len();
    if n > MAX_MESSAGE_BYTES as usize {
        return Err(FrameError::OutgoingTooLong(n as u64));
    }
    let length: u32 = n as u32;
    let mut out: Vec<u8> = Vec::new();
    out.push((length % 0x100) as u8);
    out.push((length / 0x100 % 0x100) as u8);
    out.push((length / 0x1_0000 % 0x100) as u8);
    out.push((length / 0x100_0000) as u8);
    assert(out@ =~= bytes::bytes32(length));
    let mut rest: Vec<u8> = slice_to_vec(body, 0, n);
    assert(rest@ =~= body@);
    out.append(&mut rest);
    Ok(out)
}

/// The frame of a message that is to be sent.
pub open spec fn framed_message(message: Json) -> Result<Seq<u8>, FrameFault> {
    match json::encoded(message) {
        Ok(body) => framed(body),
        Err(words) => Err(FrameFault::Unwritable(words)),
    }
}

/// The frame of a message that is to be sent. What is written is read back: a
/// plain message whose body is not too long is framed, and its frame, whatever
/// follows it, holds that message.
pub fn write_message(value: &Value) -> (r: Result<Vec<u8>, FrameError>)
    ensures
        (match r {
            Ok(frame) => Ok(frame@),
            Err(e) => Err(e@),
        }) == framed_message(json::json(*value)),
        json::plain(json::json(*value), MAX_NESTING as nat) ==> match r {
            Ok(frame) => forall|rest: Seq<u8>|
                #![trigger frame_of(frame@ + rest)]
                frame_of(frame@ + rest) == Ok::<Option<(Json, nat)>, FrameFault>(
                    Some((json::json(*value), frame@.len())),
                ),
            Err(e) => json::encoded(json::json(*value)) matches Ok(body) && body.len()
                > MAX_MESSAGE_BYTES && e@ is OutgoingTooLong,
        },
{
    match encode(value) {
        Ok(body) => {
            let r = frame_bytes(body.as_slice());
            proof {
                if json::plain(json::json(*value), MAX_NESTING as nat) && r is Ok {
                    let frame = r->Ok_0@;
                    assert forall|rest: Seq<u8>|
                        #![trigger frame_of(frame + rest)]
                        frame_of(frame + rest) == Ok::<Option<(Json, nat)>, FrameFault>(
                            Some((json::json(*value), frame.len())),
                        ) by {
                        law_a_frame_is_read_back(body@, rest);
                    }
                }
            }
            r
        },
        Err(words) => Err(FrameError::Unwritable(words)),
    }
}

// ---------------------------------------------------------------------------
// Messages to the extension
// ---------------------------------------------------------------------------

/// A message to the extension. Risks are in units of `RISK_ONE`.
#[derive(Debug)]
pub enum Outgoing {
    /// The host is there.
    Pong { version: String, exe: String, quarantine_subdir: String },
    /// The end of a session, or the refusal of a message.
    Verdict {
        status: String,
        verdict: String,
        /// The session, where there is one.
        session: Option<String>,
        /// Where the file is; only where it reached the user.
        released_path: Option<String>,
        findings: Vec<Finding>,
    },
    /// A chunk was received.
    ChunkAck { session_id: String, seq: u64 },
    /// The download must be cancelled now.
    EarlyBlock { session_id: String, risk_score: i64, reason: String },
    /// How far the scan of a download has come.
    Progress { session_id: String, bytes_scanned: u64, risk_score: i64 },
    /// What is known of a link.
    UrlScore { score: i64, label: String, reason: String },
}

/// What a message says.
pub enum OutgoingModel {
    Pong { version: Seq<char>, exe: Seq<char>, quarantine_subdir: Seq<char> },
    Verdict {
        status: Seq<char>,
        verdict: Seq<char>,
        session: Option<Seq<char>>,
        released_path: Option<Seq<char>>,
        findings: Seq<FindingModel>,
    },
    ChunkAck { session_id: Seq<char>, seq: nat },
    EarlyBlock { session_id: Seq<char>, risk_score: int, reason: Seq<char> },
    Progress { session_id: Seq<char>, bytes_scanned: nat, risk_score: int },
    UrlScore { score: int, label: Seq<char>, reason: Seq<char> },
}

impl View for Outgoing {
    type V = OutgoingModel;

    open spec fn view(&self) -> OutgoingModel {
        match self {
            Outgoing::Pong { version, exe, quarantine_subdir } => OutgoingModel::Pong {
                version: version@,
                exe: exe@,
                quarantine_subdir: quarantine_subdir@,
            },
            Outgoing::Verdict { status, verdict, session, released_path, findings } => {
                OutgoingModel::Verdict {
                    status: status@,
                    verdict: verdict@,
                    session: text::text_of(*session),
                    released_path: text::text_of(*released_path),
                    findings: finding::models(findings@),
                }
            },
            Outgoing::ChunkAck { session_id, seq } => OutgoingModel::ChunkAck {
                session_id: session_id@,
                seq: *seq as nat,
            },
            Outgoing::EarlyBlock { session_id, risk_score, reason } => OutgoingModel::EarlyBlock {
                session_id: session_id@,
                risk_score: *risk_score as int,
                reason: reason@,
            },
            Outgoing::Progress { session_id, bytes_scanned, risk_score } => {
                OutgoingModel::Progress {
                    session_id: session_id@,
                    bytes_scanned: *bytes_scanned as nat,
                    risk_score: *risk_score as int,
                }
            },
            Outgoing::UrlScore { score, label, reason } => OutgoingModel::UrlScore {
                score: *score as int,
                label: label@,
                reason: reason@,
            },
        }
    }
}

/// The word under which a message goes.
pub open spec fn kind_text(m: OutgoingModel) -> Seq<char> {
    match m {
        OutgoingModel::Pong { .. } => "PONG"@,
        OutgoingModel::Verdict { .. } => "VERDICT"@,
        OutgoingModel::ChunkAck { .. } => "CHUNK_ACK"@,
        OutgoingModel::EarlyBlock { .. } => "EARLY_BLOCK"@,
        OutgoingModel::Progress { .. } => "PROGRESS"@,
        OutgoingModel::UrlScore { .. } => "URL_SCORE"@,
    }
}

impl Outgoing {
    /// The word under which the message goes.
    pub fn kind(&self) -> (r: &'static str)
        ensures
            r@ == kind_text(self@),
    {
        match self {
            Outgoing::Pong { .. } => "PONG",
            Outgoing::Verdict { .. } => "VERDICT",
            Outgoing::ChunkAck { .. } => "CHUNK_ACK",
            Outgoing::EarlyBlock { .. } => "EARLY_BLOCK",
            Outgoing::Progress { .. } => "PROGRESS",
            Outgoing::UrlScore { .. } => "URL_SCORE",
        }
    }
}

/// A verdict without a file and without findings.
pub open spec fn plain_verdict(
    status: Seq<char>,
    verdict: Seq<char>,
    session_id: Option<Seq<char>>,
) -> OutgoingModel {
    OutgoingModel::Verdict {
        status,
        verdict,
        session: session_id,
        released_path: None,
        findings: Seq::empty(),
    }
}

/// The verdict on a message, or on a session that did not come about.
pub fn send_verdict(status: &str, verdict: &str, session_id: &Option<String>) -> (r: Outgoing)
    ensures
        r@ == plain_verdict(status@, verdict@, text::text_of(*session_id)),
{
    let findings: Vec<Finding> = Vec::new();
    assert(finding::models(findings@) =~= Seq::<FindingModel>::empty());
    Outgoing::Verdict {
        status: status.to_string(),
        verdict: verdict.to_string(),
        session: copy_of(session_id),
        released_path: None,
        findings,
    }
}

/// The acknowledgment of a chunk.
pub fn send_chunk_ack(session_id: &str, seq: u64) -> (r: Outgoing)
    ensures
        r@ == (OutgoingModel::ChunkAck { session_id: session_id@, seq: seq as nat }),
{
    Outgoing::ChunkAck { session_id: session_id.to_string(), seq }
}

/// The call to cancel a download now.
pub fn send_early_block(session_id: &str, risk_score: i64, reason: &str) -> (r: Outgoing)
    ensures
        r@ == (OutgoingModel::EarlyBlock {
            session_id: session_id@,
            risk_score: risk_score as int,
            reason: reason@,
        }),
{
    Outgoing::EarlyBlock {
        session_id: session_id.to_string(),
        risk_score,
        reason: reason.to_string(),
    }
}

/// How far the scan of a download has come.
pub fn send_progress(session_id: &str, bytes_scanned: u64, risk_score: i64) -> (r: Outgoing)
    ensures
        r@ == (OutgoingModel::Progress {
            session_id: session_id@,
            bytes_scanned: bytes_scanned as nat,
            risk_score: risk_score as int,
        }),
{
    Outgoing::Progress { session_id: session_id.to_string(), bytes_scanned, risk_score }
}

/// The verdict that ends the session of a download.
pub fn send_final_verdict(
    session_id: &str,
    status: &str,
    verdict: &str,
    released_path: &Option<String>,
) -> (r: Outgoing)
    ensures
        r@ == (OutgoingModel::Verdict {
            status: status@,
            verdict: verdict@,
            session: Some(session_id@),
            released_path: text::text_of(*released_path),
            findings: Seq::empty(),
        }),
{
    let none: Vec<Finding> = Vec::new();
    assert(finding::models(none@) =~= Seq::<FindingModel>::empty());
    send_final_verdict_with_findings(session_id, status, verdict, released_path, none.as_slice())
}

/// The verdict that ends the session of a download, with what was found.
pub fn send_final_verdict_with_findings(
    session_id: &str,
    status: &str,
    verdict: &str,
    released_path: &Option<String>,
    findings: &[Finding],
) -> (r: Outgoing)
    ensures
        r@ == (OutgoingModel::Verdict {
            status: status@,
            verdict: verdict@,
            session: Some(session_id@),
            released_path: text::text_of(*released_path),
            findings: finding::models(findings@),
        }),
{
    Outgoing::Verdict {
        status: status.to_string(),
        verdict: verdict.to_string(),
        session: Some(session_id.to_string()),
        released_path: copy_of(released_path),
        findings: copy_findings(findings),
    }
}

// ---------------------------------------------------------------------------
// Laws
// ---------------------------------------------------------------------------

/// Reading gives back what was written: a body that is not empty and not too
/// long is framed, and its frame, whatever follows it, holds that body.
pub proof fn law_a_frame_is_read_back(body: Seq<u8>, rest: Seq<u8>)
    requires
        0 < body.len() <= MAX_MESSAGE_BYTES,
    ensures
        framed(body) matches Ok(frame) && body_of(frame + rest) == Ok::<
            Option<Seq<u8>>,
            FrameFault,
        >(Some(body)) && (frame + rest).skip(4 + body.len() as int) == rest,
{
    let frame = bytes::bytes32(body.len() as u32) + body;
    let input = frame + rest;
    bytes::lemma_bytes32_round_trip(body.len() as u32, body + rest);
    assert(input =~= bytes::bytes32(body.len() as u32) + (body + rest));
    assert(input.subrange(4, 4 + body.len() as int) =~= body);
    assert(input.skip(4 + body.len() as int) =~= rest);
}

/// No frame is longer than its header and the longest body, in either
/// direction.
pub proof fn law_no_message_exceeds_the_limit(body: Seq<u8>, input: Seq<u8>)
    ensures
        framed(body) matches Ok(frame) ==> frame.len() <= 4 + MAX_MESSAGE_BYTES,
        body_of(input) matches Ok(Some(b)) ==> 0 < b.len() <= MAX_MESSAGE_BYTES,
{
}

/// A length that is too great, or zero, is refused on the header alone,
/// whatever follows it.
pub proof fn law_a_bad_length_is_refused_on_the_header_alone(n: u32, rest: Seq<u8>)
    requires
        n == 0 || n > MAX_MESSAGE_BYTES,
    ensures
        announced(bytes::bytes32(n)) is Err,
        frame_of(bytes::bytes32(n) + rest) is Err,
{
    bytes::lemma_bytes32_round_trip(n, rest);
    bytes::lemma_bytes32_round_trip(n, Seq::empty());
    assert(bytes::bytes32(n) + Seq::<u8>::empty() =~= bytes::bytes32(n));
}

/// A stream that ends within the header has been closed, which is no error; a
/// stream that ends within the body is one.
pub proof fn law_a_closed_stream_is_told_from_a_broken_one(input: Seq<u8>)
    ensures
        input.len() < 4 <==> frame_of(input) == Ok::<
            Option<(Json, nat)>,
            FrameFault,
        >(None),
        announced(input) matches Ok(Some(n)) ==> (input.len() < 4 + n ==> frame_of(input) == Err::<
            Option<(Json, nat)>,
            FrameFault,
        >(FrameFault::Truncated)),
{
}

/// A message may be a megabyte long and not a byte more, in either direction,
/// and one that comes in may not be empty.
pub proof fn law_the_length_of_a_message(n: u32, rest: Seq<u8>, body: Seq<u8>)
    ensures
        0 < n <= 1_048_576 ==> announced(bytes::bytes32(n) + rest) == Ok::<Option<u32>, FrameFault>(
            Some(n),
        ),
        n > 1_048_576 ==> announced(bytes::bytes32(n) + rest) == Err::<Option<u32>, FrameFault>(
            FrameFault::TooLong(n),
        ),
        n == 0 ==> announced(bytes::bytes32(n) + rest) == Err::<Option<u32>, FrameFault>(
            FrameFault::Empty,
        ),
        framed(body) is Ok <==> body.len() <= 1_048_576,
        framed(body) matches Ok(frame) ==> frame == bytes::bytes32(body.len() as u32) + body,
{
    bytes::lemma_bytes32_round_trip(n, rest);
}

/// What a stream holds is told by its length and its body alone: a frame is cut
/// at its end, and its body is what the parser is given.
pub proof fn law_a_frame_is_cut_at_its_end(n: u32, body: Seq<u8>, rest: Seq<u8>)
    requires
        0 < n <= 1_048_576,
        body.len() == n,
    ensures
        match frame_of(bytes::bytes32(n) + body + rest) {
            Ok(Some((m, length))) => json::parsed(body) == Ok::<Json, Seq<char>>(m) && length == 4
                + n,
            Err(FrameFault::NotJson(words)) => json::parsed(body) == Err::<Json, Seq<char>>(words),
            _ => false,
        },
{
    let input = bytes::bytes32(n) + body + rest;
    bytes::lemma_bytes32_round_trip(n, body + rest);
    assert(input =~= bytes::bytes32(n) + (body + rest));
    assert(input.subrange(4, 4 + n) =~= body);
}

/// A plain verdict says what it is given, in the session that it is given, and
/// neither names a place nor carries a finding.
pub proof fn law_a_plain_verdict_releases_nothing(
    status: Seq<char>,
    verdict: Seq<char>,
    session_id: Option<Seq<char>>,
)
    ensures
        plain_verdict(status, verdict, session_id) matches OutgoingModel::Verdict {
            status: s,
            verdict: v,
            session,
            released_path,
            findings,
        } && s == status && v == verdict && session == session_id && released_path is None
            && findings.len() == 0,
{
}

/// Every kind of message has its own word.
pub proof fn law_every_kind_of_message_has_its_word(a: OutgoingModel, b: OutgoingModel)
    ensures
        kind_text(a) == kind_text(b) ==> (a is Pong == b is Pong) && (a is Verdict == b is Verdict)
            && (a is ChunkAck == b is ChunkAck) && (a is EarlyBlock == b is EarlyBlock) && (a
            is Progress == b is Progress) && (a is UrlScore == b is UrlScore),
        a is Verdict <==> kind_text(a) == "VERDICT"@,
        a is EarlyBlock <==> kind_text(a) == "EARLY_BLOCK"@,
        a is Pong <==> kind_text(a) == "PONG"@,
        a is Progress <==> kind_text(a) == "PROGRESS"@,
        a is UrlScore <==> kind_text(a) == "URL_SCORE"@,
        a is ChunkAck <==> kind_text(a) == "CHUNK_ACK"@,
{
    reveal_strlit("PONG");
    reveal_strlit("VERDICT");
    reveal_strlit("CHUNK_ACK");
    reveal_strlit("EARLY_BLOCK");
    reveal_strlit("PROGRESS");
    reveal_strlit("URL_SCORE");
    assert("PONG"@.len() == 4 && "VERDICT"@.len() == 7 && "CHUNK_ACK"@.len() == 9
        && "EARLY_BLOCK"@.len() == 11 && "PROGRESS"@.len() == 8 && "URL_SCORE"@.len() == 9);
    assert("CHUNK_ACK"@[0] != "URL_SCORE"@[0]);
}

} // verus!
