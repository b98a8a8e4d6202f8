//! Structural analysis: what hides inside or after a well-formed file.
//!
//! A header that matches the extension says nothing of bytes that ride along
//! where the format does not look: data after the logical end, a second format
//! inside the first, an executable within an image. A file name can be rigged
//! in the same spirit, with a harmless extension before the one that counts.
use crate::bytes::pattern_bytes;
use crate::bytes;
use crate::numbers::push_decimal;
use crate::numbers;
use crate::scanner::finding::{
    append_all, append_one, one_lines, worst, Finding, FindingModel, Severity,
};
use crate::scanner::finding;
use crate::sequences::{find, rfind, slice_to_vec, starts_with};
use crate::sequences;
use crate::text::{chars_of, is_one_of, rfind_char, substring};
use crate::text;
use vstd::prelude::*;
use vstd::slice::slice_subrange;

verus! {

/// Result of structural analysis.
#[derive(Debug)]
pub struct StructureResult {
    pub flagged: bool,
    pub flags: Vec<String>,
    pub findings: Vec<Finding>,
    pub risk: i64,
    /// Bytes present after the format's logical end.
    pub trailing_bytes: usize,
}

/// The eight bytes that a PNG file starts with.
pub const PNG_HEADER: [u8; 8] = [0x89, 0x50, 0x4E, 0x47, 0x0D, 0x0A, 0x1A, 0x0A];

/// The name of the chunk that closes a PNG file.
pub const PNG_END: [u8; 4] = [0x49, 0x45, 0x4E, 0x44];

/// `GIF87a`.
pub const GIF_87: [u8; 6] = [0x47, 0x49, 0x46, 0x38, 0x37, 0x61];

/// `GIF89a`.
pub const GIF_89: [u8; 6] = [0x47, 0x49, 0x46, 0x38, 0x39, 0x61];

/// The trailer byte of a GIF file.
pub const GIF_END: [u8; 1] = [0x3B];

/// The start of a JPEG file.
pub const JPEG_HEADER: [u8; 3] = [0xFF, 0xD8, 0xFF];

/// The end-of-image marker of a JPEG file.
pub const JPEG_END: [u8; 2] = [0xFF, 0xD9];

/// The local header signature that a ZIP file starts with.
pub const ZIP_HEADER: [u8; 4] = [0x50, 0x4B, 0x03, 0x04];

/// The signature of the end-of-central-directory record of a ZIP file.
pub const ZIP_END: [u8; 4] = [0x50, 0x4B, 0x05, 0x06];

/// `%PDF`.
pub const PDF_HEADER: [u8; 4] = [0x25, 0x50, 0x44, 0x46];

/// `%%EOF`.
pub const PDF_END: [u8; 5] = [0x25, 0x25, 0x45, 0x4F, 0x46];

/// `BM`, the start of a BMP file.
pub const BMP_HEADER: [u8; 2] = [0x42, 0x4D];

/// `RIFF`, the start of a WAV, AVI or WEBP file.
pub const RIFF_HEADER: [u8; 4] = [0x52, 0x49, 0x46, 0x46];

/// Fewer trailing bytes than this are padding or alignment.
pub const MIN_TRAILING: usize = 64;

/// How much of the front of a file is its own header.
pub const OWN_HEADER: usize = 16;

/// What is worth finding inside a file that claims to be something else: the
/// byte pattern, what it belongs to, and the risk.
pub const EMBEDDED_SIGNATURES: [(&'static str, &'static str, i64); 10] = [
    ("MZ\u{90}\u{0}", "Windows executable (PE)", 7_500),
    ("\u{7F}ELF", "Linux executable (ELF)", 7_000),
    ("PK\u{3}\u{4}", "ZIP archive", 4_500),
    ("Rar!\u{1A}\u{7}", "RAR archive", 5_000),
    ("7z\u{BC}\u{AF}\u{27}\u{1C}", "7-Zip archive", 5_000),
    ("\u{CA}\u{FE}\u{BA}\u{BE}", "Java class file", 5_500),
    ("#!/bin/sh", "shell script", 5_000),
    ("#!/bin/bash", "shell script", 5_000),
    ("<?php", "PHP source", 6_000),
    ("<script", "embedded script tag", 4_000),
];

/// Extensions that run when opened.
pub const EXECUTABLE: [&'static str; 18] = [
    "exe", "scr", "com", "bat", "cmd", "pif", "vbs", "vbe", "js", "jse", "wsf", "wsh", "msi", "jar",
    "ps1", "hta", "cpl", "lnk",
];

/// Extensions that look like something to read, watch or listen to.
pub const DOCUMENT: [&'static str; 18] = [
    "pdf", "doc", "docx", "xls", "xlsx", "ppt", "pptx", "txt", "rtf", "jpg", "jpeg", "png", "gif",
    "mp3", "mp4", "avi", "zip", "csv",
];

pub const APPENDED_TITLE: &'static str = "Hidden data appended to the file";

pub const APPENDED_WHY: &'static str = "Data after a file's logical end is invisible to normal viewers but still \
     present on disk. It is a common way to smuggle a payload past checks that \
     only look at the file's header.";

pub const EMBEDDED_WHY: &'static str = "An image file has no legitimate reason to contain a program. This is how \
     malware is smuggled through filters that only check the file's extension or \
     its first few bytes.";

pub const DOUBLE_EXTENSION_TITLE: &'static str = "Filename disguised to look like a document";

// ---------------------------------------------------------------------------
// Where a format ends
// ---------------------------------------------------------------------------

/// A format that a marker closes ends `after` bytes behind the start of the
/// marker.
pub open spec fn end_behind(marker: Option<int>, after: int, format: Seq<char>) -> Option<
    (int, Seq<char>),
> {
    match marker {
        Some(i) => Some((i + after, format)),
        None => None,
    }
}

/// Where the format that the data starts as ends, and its name. No answer
/// means that the end is not known.
pub open spec fn format_end(data: Seq<u8>) -> Option<(int, Seq<char>)> {
    if sequences::begins_with(data, PNG_HEADER@) {
        end_behind(sequences::first_occurrence(data, PNG_END@), 8, "PNG"@)
    } else if sequences::begins_with(data, GIF_87@) || sequences::begins_with(data, GIF_89@) {
        end_behind(sequences::last_occurrence(data, GIF_END@), 1, "GIF"@)
    } else if sequences::begins_with(data, JPEG_HEADER@) {
        end_behind(sequences::last_occurrence(data, JPEG_END@), 2, "JPEG"@)
    } else if sequences::begins_with(data, ZIP_HEADER@) {
        match sequences::last_occurrence(data, ZIP_END@) {
            Some(i) if i + 22 <= data.len() => Some(
                (i + 22 + data[i + 20] + 0x100 * data[i + 21], "ZIP"@),
            ),
            _ => None,
        }
    } else if sequences::begins_with(data, PDF_HEADER@) {
        end_behind(sequences::last_occurrence(data, PDF_END@), 5, "PDF"@)
    } else {
        None
    }
}

/// The text of an optional end and format name.
pub open spec fn end_view(end: Option<(u128, &'static str)>) -> Option<(int, Seq<char>)> {
    match end {
        Some((e, name)) => Some((e as int, name@)),
        None => None,
    }
}

/// Where a container format logically ends, as far as that is known.
pub fn logical_end(data: &[u8]) -> (r: Option<(u128, &'static str)>)
    ensures
        end_view(r) == format_end(data@),
{
    if starts_with(data, &PNG_HEADER) {
        return match find(data, &PNG_END) {
            Some(i) => Some((i as u128 + 8, "PNG")),
            None => None,
        };
    }
    if starts_with(data, &GIF_87) || starts_with(data, &GIF_89) {
        return match rfind(data, &GIF_END) {
            Some(i) => Some((i as u128 + 1, "GIF")),
            None => None,
        };
    }
    if starts_with(data, &JPEG_HEADER) {
        return match rfind(data, &JPEG_END) {
            Some(i) => Some((i as u128 + 2, "JPEG")),
            None => None,
        };
    }
    if starts_with(data, &ZIP_HEADER) {
        return match rfind(data, &ZIP_END) {
            Some(i) => if data.len() - i >= 22 {
                let comment: u128 = data[i + 20] as u128 + 0x100 * (data[i + 21] as u128);
                Some((i as u128 + 22 + comment, "ZIP"))
            } else {
                None
            },
            None => None,
        };
    }
    if starts_with(data, &PDF_HEADER) {
        return match rfind(data, &PDF_END) {
            Some(i) => Some((i as u128 + 5, "PDF")),
            None => None,
        };
    }
    None
}

// ---------------------------------------------------------------------------
// Data after the end
// ---------------------------------------------------------------------------

/// The bytes after the end of the format that the data starts as.
pub open spec fn trailing(data: Seq<u8>) -> int {
    match format_end(data) {
        Some((end, _)) if end < data.len() => data.len() - end,
        _ => 0,
    }
}

/// Row `k` is the first of the embedded signatures that some bytes start with.
pub open spec fn leading_signature_at(tail: Seq<u8>, k: int) -> bool {
    &&& 0 <= k < EMBEDDED_SIGNATURES@.len()
    &&& sequences::begins_with(tail, bytes::pattern(EMBEDDED_SIGNATURES@[k].0@))
    &&& forall|j: int|
        0 <= j < k ==> !sequences::begins_with(tail, bytes::pattern((#[trigger] EMBEDDED_SIGNATURES@[j]).0@))
}

/// The first of the embedded signatures that some bytes start with.
pub open spec fn leading_signature(tail: Seq<u8>) -> Option<int> {
    if exists|k: int| leading_signature_at(tail, k) {
        Some(choose|k: int| leading_signature_at(tail, k))
    } else {
        None
    }
}

/// The finding about a recognised payload behind the end of a format.
pub open spec fn polyglot(format: Seq<char>, end: int, count: int, name: Seq<char>, risk: int) -> FindingModel {
    finding::finding(
        Severity::High,
        "Hidden "@ + name + " concealed inside an image"@,
        "The "@ + format + " data ends at byte "@ + numbers::decimal(end as nat)
            + ", but the file continues for another "@ + numbers::decimal(count as nat)
            + " bytes. Those extra bytes begin with a "@ + name + " signature."@,
        "This is a polyglot file: it opens normally as an image, so it looks harmless, while carrying a "@
            + name
            + " that other software can extract and run. Legitimate images never have data appended after they end."@,
        if risk > 7_000 {
            risk
        } else {
            7_000
        },
    )
}

/// The finding about an unidentified payload behind the end of a format.
pub open spec fn appended(format: Seq<char>, end: int, count: int) -> FindingModel {
    finding::finding(
        Severity::Medium,
        APPENDED_TITLE@,
        "The "@ + format + " data ends at byte "@ + numbers::decimal(end as nat)
            + ", but the file continues for another "@ + numbers::decimal(count as nat)
            + " bytes of unidentified content."@,
        APPENDED_WHY@,
        4_000,
    )
}

/// What is to be reported of data behind the end of the format: nothing of a
/// few stray bytes.
pub open spec fn trailing_findings(data: Seq<u8>) -> Seq<FindingModel> {
    if trailing(data) < MIN_TRAILING {
        Seq::empty()
    } else {
        let (end, format) = format_end(data)->0;
        match leading_signature(data.skip(end)) {
            Some(k) => seq![
                polyglot(
                    format,
                    end,
                    trailing(data),
                    EMBEDDED_SIGNATURES@[k].1@,
                    EMBEDDED_SIGNATURES@[k].2 as int,
                ),
            ],
            None => seq![appended(format, end, trailing(data))],
        }
    }
}

/// The first of the embedded signatures that the data shows at index `from`.
fn find_leading_signature(tail: &[u8]) -> (r: Option<usize>)
    ensures
        r is None <==> leading_signature(tail@) is None,
        r matches Some(k) ==> k < EMBEDDED_SIGNATURES@.len() && leading_signature(tail@) == Some(
            k as int,
        ),
{
    let mut k: usize = 0;
    while k < EMBEDDED_SIGNATURES.len()
        invariant
            k <= EMBEDDED_SIGNATURES@.len(),
            forall|j: int|
                0 <= j < k ==> !sequences::begins_with(
                    tail@,
                    bytes::pattern((#[trigger] EMBEDDED_SIGNATURES@[j]).0@),
                ),
        decreases EMBEDDED_SIGNATURES@.len() - k,
    {
        let bytes = pattern_bytes(EMBEDDED_SIGNATURES[k].0);
        if starts_with(tail, bytes.as_slice()) {
            assert(leading_signature_at(tail@, k as int));
            assert(forall|m: int| leading_signature_at(tail@, m) ==> m == k);
            return Some(k);
        }
        k += 1;
    }
    None
}

/// Reports data behind the end of the format.
fn check_trailing(data: &[u8], end: usize, format: &str) -> (r: Option<Finding>)
    requires
        end <= data@.len(),
        format_end(data@) == Some((end as int, format@)),
    ensures
        finding::optional(r) == trailing_findings(data@),
{
    let n: usize = data.len();
    let count: usize = n - end;
    if count < MIN_TRAILING {
        return None;
    }
    let tail = slice_subrange(data, end, n);
    assert(tail@ =~= data@.skip(end as int));
    let mut detail: String = "The ".to_string();
    detail.append(format);
    detail.append(" data ends at byte ");
    push_decimal(&mut detail, end as u64);
    detail.append(", but the file continues for another ");
    push_decimal(&mut detail, count as u64);
    match find_leading_signature(tail) {
        Some(k) => {
            let name: &'static str = EMBEDDED_SIGNATURES[k].1;
            let own: i64 = EMBEDDED_SIGNATURES[k].2;
            let risk: i64 = if own > 7_000 {
                own
            } else {
                7_000
            };
            detail.append(" bytes. Those extra bytes begin with a ");
            detail.append(name);
            detail.append(" signature.");
            let mut title: String = "Hidden ".to_string();
            title.append(name);
            title.append(" concealed inside an image");
            let mut why: String =
                "This is a polyglot file: it opens normally as an image, so it looks harmless, while carrying a ".to_string();
            why.append(name);
            why.append(
                " that other software can extract and run. Legitimate images never have data appended after they end.",
            );
            Some(Finding::new(Severity::High, title, detail, why, risk))
        },
        None => {
            detail.append(" bytes of unidentified content.");
            Some(
                Finding::new(
                    Severity::Medium,
                    APPENDED_TITLE.to_string(),
                    detail,
                    APPENDED_WHY.to_string(),
                    4_000,
                ),
            )
        },
    }
}

// ---------------------------------------------------------------------------
// Other formats inside media
// ---------------------------------------------------------------------------

/// Formats in which another format's header is suspicious. Containers that
/// hold arbitrary data are not among them.
pub open spec fn opaque_media(data: Seq<u8>) -> bool {
    ||| sequences::begins_with(data, PNG_HEADER@)
    ||| sequences::begins_with(data, JPEG_HEADER@)
    ||| sequences::begins_with(data, GIF_87@)
    ||| sequences::begins_with(data, GIF_89@)
    ||| sequences::begins_with(data, BMP_HEADER@)
    ||| sequences::begins_with(data, RIFF_HEADER@)
}

/// Whether the data is media in which another format's header is suspicious.
pub fn is_opaque_media(data: &[u8]) -> (r: bool)
    ensures
        r == opaque_media(data@),
{
    starts_with(data, &PNG_HEADER) || starts_with(data, &JPEG_HEADER) || starts_with(data, &GIF_87)
        || starts_with(data, &GIF_89) || starts_with(data, &BMP_HEADER) || starts_with(
        data,
        &RIFF_HEADER,
    )
}

/// Where embedded signature `k` first stands behind the front of the data.
pub open spec fn embedded_at(data: Seq<u8>, k: int) -> Option<int> {
    let from = if data.len() < OWN_HEADER {
        data.len() as int
    } else {
        OWN_HEADER as int
    };
    match sequences::first_occurrence(data.skip(from), bytes::pattern(EMBEDDED_SIGNATURES@[k].0@)) {
        Some(i) => Some(i + from),
        None => None,
    }
}

/// The finding about a signature inside image data.
pub open spec fn embedded(name: Seq<char>, at: int, risk: int) -> FindingModel {
    finding::finding(
        Severity::High,
        name + " hidden inside image data"@,
        "A "@ + name + " signature was found at byte offset "@ + numbers::decimal(at as nat)
            + ", inside what is otherwise image content."@,
        EMBEDDED_WHY@,
        risk,
    )
}

/// What is to be reported of embedded signature `k`: nothing where it stands
/// behind the end of the format, which is reported as trailing data.
pub open spec fn embedded_finding(data: Seq<u8>, k: int) -> Seq<FindingModel> {
    match embedded_at(data, k) {
        Some(at) if !(format_end(data) is Some && at >= (format_end(data)->0).0) => seq![
            embedded(EMBEDDED_SIGNATURES@[k].1@, at, EMBEDDED_SIGNATURES@[k].2 as int),
        ],
        _ => Seq::empty(),
    }
}

/// What is to be reported of the first `n` embedded signatures.
pub open spec fn embedded_findings(data: Seq<u8>, n: nat) -> Seq<FindingModel>
    decreases n,
{
    if n == 0 {
        Seq::empty()
    } else {
        embedded_findings(data, (n - 1) as nat) + embedded_finding(data, n - 1)
    }
}

/// Reports embedded signature `k`.
fn check_embedded(data: &[u8], k: usize, end: &Option<(u128, &'static str)>) -> (r: Option<Finding>)
    requires
        k < EMBEDDED_SIGNATURES@.len(),
        end_view(*end) == format_end(data@),
    ensures
        finding::optional(r) == embedded_finding(data@, k as int),
{
    let n: usize = data.len();
    let from: usize = if n < OWN_HEADER {
        n
    } else {
        OWN_HEADER
    };
    let body = slice_subrange(data, from, n);
    assert(body@ =~= data@.skip(from as int));
    let bytes = pattern_bytes(EMBEDDED_SIGNATURES[k].0);
    match find(body, bytes.as_slice()) {
        Some(i) => {
            let at: usize = i + from;
            if let Some((e, _)) = end {
                if at as u128 >= *e {
                    return None;
                }
            }
            let name: &'static str = EMBEDDED_SIGNATURES[k].1;
            let mut title: String = name.to_string();
            title.append(" hidden inside image data");
            let mut detail: String = "A ".to_string();
            detail.append(name);
            detail.append(" signature was found at byte offset ");
            push_decimal(&mut detail, at as u64);
            detail.append(", inside what is otherwise image content.");
            Some(
                Finding::new(
                    Severity::High,
                    title,
                    detail,
                    EMBEDDED_WHY.to_string(),
                    EMBEDDED_SIGNATURES[k].2,
                ),
            )
        },
        None => None,
    }
}

/// Reports every embedded signature.
fn check_all_embedded(data: &[u8], end: &Option<(u128, &'static str)>) -> (r: Vec<Finding>)
    requires
        end_view(*end) == format_end(data@),
    ensures
        finding::models(r@) == embedded_findings(data@, EMBEDDED_SIGNATURES@.len()),
{
    let mut out: Vec<Finding> = Vec::new();
    assert(finding::models(out@) =~= embedded_findings(data@, 0));
    let mut k: usize = 0;
    while k < EMBEDDED_SIGNATURES.len()
        invariant
            k <= EMBEDDED_SIGNATURES@.len(),
            end_view(*end) == format_end(data@),
            finding::models(out@) == embedded_findings(data@, k as nat),
        decreases EMBEDDED_SIGNATURES@.len() - k,
    {
        let f = check_embedded(data, k, end);
        append_one(&mut out, f);
        k += 1;
    }
    out
}

// ---------------------------------------------------------------------------
// Double extensions
// ---------------------------------------------------------------------------

/// The last two of the dot-separated parts of a name that has three parts or
/// more.
pub open spec fn last_two_parts(name: Seq<char>) -> Option<(Seq<char>, Seq<char>)> {
    match text::last_index(name, '.') {
        Some(j) => match text::last_index(name.take(j), '.') {
            Some(i) => Some(
                (name.subrange(i + 1, j), name.subrange(j + 1, name.len() as int)),
            ),
            None => None,
        },
        None => None,
    }
}

/// A document-looking extension stands before an executable one, both in lower
/// case.
pub open spec fn deceptive(visible: Seq<char>, actual: Seq<char>) -> bool {
    text::one_of(actual, EXECUTABLE@) && text::one_of(visible, DOCUMENT@)
}

/// Whether a document-looking extension stands before an executable one, both
/// in lower case.
pub fn is_deceptive(visible: &str, actual: &str) -> (r: bool)
    ensures
        r == deceptive(visible@, actual@),
{
    is_one_of(actual, &EXECUTABLE) && is_one_of(visible, &DOCUMENT)
}

/// The extension that shows and the one that counts, of a name in which a
/// document-looking extension stands before an executable one.
pub open spec fn disguise(name: Seq<char>) -> Option<(Seq<char>, Seq<char>)> {
    match last_two_parts(name) {
        Some((visible, actual)) => if deceptive(text::lowercase(visible), text::lowercase(actual)) {
            Some((text::lowercase(visible), text::lowercase(actual)))
        } else {
            None
        },
        None => None,
    }
}

/// The texts of an optional pair of strings.
pub open spec fn pair_view(p: Option<(String, String)>) -> Option<(Seq<char>, Seq<char>)> {
    match p {
        Some((a, b)) => Some((a@, b@)),
        None => None,
    }
}

/// Detects a document-looking extension followed by an executable one: the
/// visible extension and the actual one.
pub fn check_double_extension(filename: &str) -> (r: Option<(String, String)>)
    ensures
        pair_view(r) == disguise(filename@),
{
    let name = chars_of(filename);
    let n: usize = name.len();
    match rfind_char(name.as_slice(), '.') {
        Some(j) => {
            let front = slice_to_vec(name.as_slice(), 0, j);
            assert(front@ =~= filename@.take(j as int));
            match rfind_char(front.as_slice(), '.') {
                Some(i) => {
                    let visible = substring(name.as_slice(), i + 1, j).to_lowercase();
                    let actual = substring(name.as_slice(), j + 1, n).to_lowercase();
                    if is_deceptive(visible.as_str(), actual.as_str()) {
                        Some((visible, actual))
                    } else {
                        None
                    }
                },
                None => None,
            }
        },
        None => None,
    }
}

/// The finding about a file name with two extensions.
pub open spec fn double_extension(visible: Seq<char>, actual: Seq<char>) -> FindingModel {
    finding::finding(
        Severity::High,
        DOUBLE_EXTENSION_TITLE@,
        "The name ends in ."@ + actual + ", but the ."@ + visible
            + " before it is what draws the eye."@,
        "Windows hides known file extensions by default, so this often displays as a harmless ."@
            + visible + " file. Opening it would actually run a ."@ + actual + " program."@,
        6_500,
    )
}

/// The finding about a file name with two extensions.
pub fn double_extension_finding(visible: &str, actual: &str) -> (r: Finding)
    ensures
        r@ == double_extension(visible@, actual@),
{
    let mut detail: String = "The name ends in .".to_string();
    detail.append(actual);
    detail.append(", but the .");
    detail.append(visible);
    detail.append(" before it is what draws the eye.");
    let mut why: String =
        "Windows hides known file extensions by default, so this often displays as a harmless .".to_string();
    why.append(visible);
    why.append(" file. Opening it would actually run a .");
    why.append(actual);
    why.append(" program.");
    Finding::new(Severity::High, DOUBLE_EXTENSION_TITLE.to_string(), detail, why, 6_500)
}

/// What is to be reported of a file name.
pub open spec fn name_findings(filename: Seq<char>) -> Seq<FindingModel> {
    match disguise(filename) {
        Some((visible, actual)) => seq![double_extension(visible, actual)],
        None => Seq::empty(),
    }
}

/// Reports a file name with two extensions.
fn check_name(filename: &str) -> (r: Option<Finding>)
    ensures
        finding::optional(r) == name_findings(filename@),
{
    match check_double_extension(filename) {
        Some((visible, actual)) => Some(
            double_extension_finding(visible.as_str(), actual.as_str()),
        ),
        None => None,
    }
}

// ---------------------------------------------------------------------------
// The whole analysis
// ---------------------------------------------------------------------------

/// Everything that the structure of a file and its name give to report.
pub open spec fn structure_findings(data: Seq<u8>, filename: Seq<char>) -> Seq<FindingModel> {
    trailing_findings(data) + (if opaque_media(data) {
        embedded_findings(data, EMBEDDED_SIGNATURES@.len())
    } else {
        Seq::empty()
    }) + name_findings(filename)
}

/// Analyses a complete file for structural anomalies.
pub fn analyse(data: &[u8], filename: &str) -> (r: StructureResult)
    ensures
        finding::models(r.findings@) == structure_findings(data@, filename@),
        r.flagged == (structure_findings(data@, filename@).len() > 0),
        text::texts(r.flags@) == finding::one_line_texts(structure_findings(data@, filename@)),
        r.risk == finding::worst_risk(structure_findings(data@, filename@)),
        r.trailing_bytes == trailing(data@),
{
    let n: usize = data.len();
    let end = logical_end(data);
    let mut findings: Vec<Finding> = Vec::new();
    let mut trailing_bytes: usize = 0;
    if let Some((e, format)) = end {
        if e < n as u128 {
            trailing_bytes = n - e as usize;
            let f = check_trailing(data, e as usize, format);
            append_one(&mut findings, f);
        }
    }
    assert(finding::models(findings@) =~= trailing_findings(data@));
    if is_opaque_media(data) {
        let more = check_all_embedded(data, &end);
        append_all(&mut findings, more);
    }
    assert(finding::models(findings@) =~= trailing_findings(data@) + (if opaque_media(data@) {
        embedded_findings(data@, EMBEDDED_SIGNATURES@.len())
    } else {
        Seq::empty()
    }));
    let f = check_name(filename);
    append_one(&mut findings, f);
    let flags = one_lines(findings.as_slice());
    let risk: i64 = worst(findings.as_slice());
    StructureResult { flagged: findings.len() > 0, flags, findings, risk, trailing_bytes }
}

// ---------------------------------------------------------------------------
// Laws
// ---------------------------------------------------------------------------

/// A few bytes behind the end of a format are tolerated; more are reported
/// once.
pub proof fn law_small_padding_is_tolerated(data: Seq<u8>)
    ensures
        trailing_findings(data).len() == if trailing(data) < MIN_TRAILING {
            0int
        } else {
            1
        },
{
}

/// Containers may hold programs: a file that is not media is not searched for
/// other formats.
pub proof fn law_containers_may_hold_programs(data: Seq<u8>, filename: Seq<char>)
    requires
        sequences::begins_with(data, ZIP_HEADER@),
    ensures
        !opaque_media(data),
        structure_findings(data, filename) == trailing_findings(data) + name_findings(filename),
{
    assert(data.subrange(0, ZIP_HEADER@.len() as int)[0] == data[0]);
    assert(sequences::begins_with(data, PNG_HEADER@) ==> data.subrange(
        0,
        PNG_HEADER@.len() as int,
    )[0] == data[0]);
    assert(sequences::begins_with(data, JPEG_HEADER@) ==> data.subrange(
        0,
        JPEG_HEADER@.len() as int,
    )[0] == data[0]);
    assert(sequences::begins_with(data, GIF_87@) ==> data.subrange(0, GIF_87@.len() as int)[0]
        == data[0]);
    assert(sequences::begins_with(data, GIF_89@) ==> data.subrange(0, GIF_89@.len() as int)[0]
        == data[0]);
    assert(sequences::begins_with(data, BMP_HEADER@) ==> data.subrange(
        0,
        BMP_HEADER@.len() as int,
    )[0] == data[0]);
    assert(sequences::begins_with(data, RIFF_HEADER@) ==> data.subrange(
        0,
        RIFF_HEADER@.len() as int,
    )[0] == data[0]);
    assert(trailing_findings(data) + Seq::<FindingModel>::empty() =~= trailing_findings(data));
}

proof fn lemma_embedded_is_bounded(data: Seq<u8>, n: nat)
    requires
        n <= EMBEDDED_SIGNATURES@.len(),
    ensures
        finding::bounded(embedded_findings(data, n)),
    decreases n,
{
    if n > 0 {
        lemma_embedded_is_bounded(data, (n - 1) as nat);
    }
}

/// The risks of the findings are risks.
pub proof fn law_structure_risks_are_bounded(data: Seq<u8>, filename: Seq<char>)
    ensures
        finding::bounded(structure_findings(data, filename)),
{
    lemma_embedded_is_bounded(data, EMBEDDED_SIGNATURES@.len());
}

/// What data begins with, more data that begins with it does too.
proof fn lemma_still_begins(p: Seq<u8>, t: Seq<u8>, pat: Seq<u8>)
    requires
        sequences::begins_with(p, pat),
    ensures
        sequences::begins_with(p + t, pat),
        pat.len() > 0 ==> (p + t)[0] == pat[0],
{
    assert((p + t).subrange(0, pat.len() as int) =~= p.subrange(0, pat.len() as int));
    assert(pat.len() > 0 ==> p.subrange(0, pat.len() as int)[0] == p[0]);
}

/// The first byte rules out the headers that start with another.
proof fn lemma_headers_differ(data: Seq<u8>)
    ensures
        sequences::begins_with(data, PNG_HEADER@) ==> data[0] == 0x89,
        sequences::begins_with(data, GIF_87@) ==> data[0] == 0x47,
        sequences::begins_with(data, GIF_89@) ==> data[0] == 0x47,
        sequences::begins_with(data, JPEG_HEADER@) ==> data[0] == 0xFF,
        sequences::begins_with(data, ZIP_HEADER@) ==> data[0] == 0x50,
        sequences::begins_with(data, PDF_HEADER@) ==> data[0] == 0x25,
{
    assert(sequences::begins_with(data, PNG_HEADER@) ==> data.subrange(0, 8)[0] == data[0]);
    assert(sequences::begins_with(data, GIF_87@) ==> data.subrange(0, 6)[0] == data[0]);
    assert(sequences::begins_with(data, GIF_89@) ==> data.subrange(0, 6)[0] == data[0]);
    assert(sequences::begins_with(data, JPEG_HEADER@) ==> data.subrange(0, 3)[0] == data[0]);
    assert(sequences::begins_with(data, ZIP_HEADER@) ==> data.subrange(0, 4)[0] == data[0]);
    assert(sequences::begins_with(data, PDF_HEADER@) ==> data.subrange(0, 4)[0] == data[0]);
}

/// The last place of a mark that ends some data stays the last where what
/// follows does not hold the mark and none lies across the seam.
proof fn lemma_last_before(p: Seq<u8>, t: Seq<u8>, mark: Seq<u8>)
    requires
        mark.len() > 0,
        sequences::finishes_with(p, mark),
        !sequences::occurs(t, mark),
        forall|j: int|
            p.len() - mark.len() < j < p.len() ==> !#[trigger] sequences::occurs_at(p + t, mark, j),
    ensures
        sequences::last_occurrence(p + t, mark) == Some(p.len() - mark.len()),
{
    let data = p + t;
    let at = p.len() - mark.len();
    assert(data.subrange(at, at + mark.len()) =~= p.subrange(at, at + mark.len()));
    assert forall|j: int| at < j implies !sequences::occurs_at(data, mark, j) by {
        if p.len() <= j && sequences::occurs_at(data, mark, j) {
            assert(t.subrange(j - p.len(), j - p.len() + mark.len()) =~= data.subrange(
                j,
                j + mark.len(),
            ));
            assert(sequences::occurs_at(t, mark, j - p.len()));
        }
    }
    sequences::lemma_last(data, mark, at);
}

/// A PDF ends behind its last closing mark: whatever follows is trailing data,
/// byte for byte.
pub proof fn law_what_follows_a_pdf_is_trailing(p: Seq<u8>, t: Seq<u8>)
    requires
        sequences::begins_with(p, seq![0x25u8, 0x50, 0x44, 0x46]),
        sequences::finishes_with(p, seq![0x25u8, 0x25, 0x45, 0x4F, 0x46]),
        !sequences::occurs(t, seq![0x25u8, 0x25, 0x45, 0x4F, 0x46]),
    ensures
        format_end(p + t) == Some((p.len() as int, "PDF"@)),
        trailing(p + t) == t.len(),
{
    let mark = seq![0x25u8, 0x25, 0x45, 0x4F, 0x46];
    let data = p + t;
    assert(PDF_HEADER@ =~= seq![0x25u8, 0x50, 0x44, 0x46]);
    assert(PDF_END@ =~= mark);
    lemma_still_begins(p, t, PDF_HEADER@);
    lemma_headers_differ(data);
    let at = p.len() - 5;
    assert(p.subrange(at, at + 5)[1] == p[at + 1] && p.subrange(at, at + 5)[2] == p[at + 2]);
    assert(p.subrange(at, at + 5)[3] == p[at + 3] && p.subrange(at, at + 5)[4] == p[at + 4]);
    assert forall|j: int| at < j < p.len() implies !#[trigger] sequences::occurs_at(
        data,
        mark,
        j,
    ) by {
        if sequences::occurs_at(data, mark, j) {
            assert(data.subrange(j, j + 5)[0] == data[j]);
            assert(data.subrange(j, j + 5)[1] == data[j + 1]);
        }
    }
    lemma_last_before(p, t, mark);
}

/// A JPEG ends behind its last end-of-image marker.
pub proof fn law_what_follows_a_jpeg_is_trailing(p: Seq<u8>, t: Seq<u8>)
    requires
        sequences::begins_with(p, seq![0xFFu8, 0xD8, 0xFF]),
        sequences::finishes_with(p, seq![0xFFu8, 0xD9]),
        !sequences::occurs(t, seq![0xFFu8, 0xD9]),
    ensures
        format_end(p + t) == Some((p.len() as int, "JPEG"@)),
        trailing(p + t) == t.len(),
{
    let mark = seq![0xFFu8, 0xD9];
    let data = p + t;
    assert(JPEG_HEADER@ =~= seq![0xFFu8, 0xD8, 0xFF]);
    assert(JPEG_END@ =~= mark);
    lemma_still_begins(p, t, JPEG_HEADER@);
    lemma_headers_differ(data);
    let at = p.len() - 2;
    assert(p.subrange(at, at + 2)[1] == p[at + 1]);
    assert forall|j: int| at < j < p.len() implies !#[trigger] sequences::occurs_at(
        data,
        mark,
        j,
    ) by {
        if sequences::occurs_at(data, mark, j) {
            assert(data.subrange(j, j + 2)[0] == data[j]);
        }
    }
    lemma_last_before(p, t, mark);
}

/// A GIF of either version ends behind its last trailer byte.
pub proof fn law_what_follows_a_gif_is_trailing(p: Seq<u8>, t: Seq<u8>)
    requires
        sequences::begins_with(p, seq![0x47u8, 0x49, 0x46, 0x38, 0x37, 0x61]) || sequences::begins_with(p, seq![0x47u8, 0x49, 0x46, 0x38, 0x39, 0x61]),
        p.last() == 0x3B,
        !t.contains(0x3B),
    ensures
        format_end(p + t) == Some((p.len() as int, "GIF"@)),
        trailing(p + t) == t.len(),
{
    let mark = seq![0x3Bu8];
    let data = p + t;
    assert(GIF_87@ =~= seq![0x47u8, 0x49, 0x46, 0x38, 0x37, 0x61]);
    assert(GIF_89@ =~= seq![0x47u8, 0x49, 0x46, 0x38, 0x39, 0x61]);
    assert(GIF_END@ =~= mark);
    if sequences::begins_with(p, GIF_87@) {
        lemma_still_begins(p, t, GIF_87@);
    } else {
        lemma_still_begins(p, t, GIF_89@);
    }
    lemma_headers_differ(data);
    assert(p.subrange(p.len() - 1, p.len() as int) =~= mark);
    assert forall|j: int| !sequences::occurs_at(t, mark, j) by {
        if sequences::occurs_at(t, mark, j) {
            assert(t.subrange(j, j + 1)[0] == t[j]);
            assert(t.contains(t[j]));
        }
    }
    lemma_last_before(p, t, mark);
}

/// A PNG ends behind the checksum of its first closing chunk, whatever follows.
pub proof fn law_what_follows_a_png_is_trailing(p: Seq<u8>, t: Seq<u8>)
    requires
        sequences::begins_with(p, seq![0x89u8, 0x50, 0x4E, 0x47, 0x0D, 0x0A, 0x1A, 0x0A]),
        sequences::first_at(p, seq![0x49u8, 0x45, 0x4E, 0x44], p.len() - 8),
        p.len() >= 8,
    ensures
        format_end(p + t) == Some((p.len() as int, "PNG"@)),
        trailing(p + t) == t.len(),
{
    let mark = seq![0x49u8, 0x45, 0x4E, 0x44];
    let data = p + t;
    let at = p.len() - 8;
    assert(PNG_HEADER@ =~= seq![0x89u8, 0x50, 0x4E, 0x47, 0x0D, 0x0A, 0x1A, 0x0A]);
    assert(PNG_END@ =~= mark);
    lemma_still_begins(p, t, PNG_HEADER@);
    assert(data.subrange(at, at + 4) =~= p.subrange(at, at + 4));
    assert forall|j: int| j < at implies !sequences::occurs_at(data, mark, j) by {
        if sequences::occurs_at(data, mark, j) {
            assert(p.subrange(j, j + 4) =~= data.subrange(j, j + 4));
            assert(sequences::occurs_at(p, mark, j));
        }
    }
    sequences::lemma_first(data, mark, at);
}

/// A ZIP ends behind its last end record and the comment that the record
/// declares.
pub proof fn law_what_follows_a_zip_is_trailing(p: Seq<u8>, t: Seq<u8>, at: int)
    requires
        sequences::begins_with(p, seq![0x50u8, 0x4B, 0x03, 0x04]),
        0 <= at,
        at + 22 <= p.len(),
        p.len() == at + 22 + p[at + 20] + 0x100 * p[at + 21],
        sequences::last_at(p + t, seq![0x50u8, 0x4B, 0x05, 0x06], at),
    ensures
        format_end(p + t) == Some((p.len() as int, "ZIP"@)),
        trailing(p + t) == t.len(),
{
    let mark = seq![0x50u8, 0x4B, 0x05, 0x06];
    let data = p + t;
    assert(ZIP_HEADER@ =~= seq![0x50u8, 0x4B, 0x03, 0x04]);
    assert(ZIP_END@ =~= mark);
    lemma_still_begins(p, t, ZIP_HEADER@);
    lemma_headers_differ(data);
    sequences::lemma_last(data, mark, at);
    assert(data[at + 20] == p[at + 20] && data[at + 21] == p[at + 21]);
}

/// Of a format that is not known, or whose closing mark is missing, nothing is
/// called trailing.
pub proof fn law_no_end_means_nothing_trails(data: Seq<u8>)
    ensures
        ({
            ||| sequences::begins_with(data, seq![0x25u8, 0x50, 0x44, 0x46]) && !sequences::occurs(data, seq![0x25u8, 0x25, 0x45, 0x4F, 0x46])
            ||| sequences::begins_with(data, seq![0xFFu8, 0xD8, 0xFF]) && !sequences::occurs(data, seq![0xFFu8, 0xD9])
            ||| sequences::begins_with(data, seq![0x89u8, 0x50, 0x4E, 0x47, 0x0D, 0x0A, 0x1A, 0x0A]) && !sequences::occurs(data, seq![0x49u8, 0x45, 0x4E, 0x44])
            ||| sequences::begins_with(data, seq![0x50u8, 0x4B, 0x03, 0x04]) && !sequences::occurs(data, seq![0x50u8, 0x4B, 0x05, 0x06])
            ||| !sequences::begins_with(data, seq![0x25u8, 0x50, 0x44, 0x46]) && !sequences::begins_with(data, seq![0xFFu8, 0xD8, 0xFF])
                && !sequences::begins_with(data, seq![0x89u8, 0x50, 0x4E, 0x47, 0x0D, 0x0A, 0x1A, 0x0A]) && !sequences::begins_with(data, seq![0x50u8, 0x4B, 0x03, 0x04])
                && !sequences::begins_with(data, seq![0x47u8, 0x49, 0x46, 0x38, 0x37, 0x61]) && !sequences::begins_with(data, seq![0x47u8, 0x49, 0x46, 0x38, 0x39, 0x61])
        }) ==> trailing(data) == 0 && trailing_findings(data).len() == 0,
{
    assert(PDF_HEADER@ =~= seq![0x25u8, 0x50, 0x44, 0x46] && PDF_END@ =~= seq![0x25u8, 0x25, 0x45, 0x4F, 0x46]);
    assert(JPEG_HEADER@ =~= seq![0xFFu8, 0xD8, 0xFF] && JPEG_END@ =~= seq![0xFFu8, 0xD9]);
    assert(PNG_HEADER@ =~= seq![0x89u8, 0x50, 0x4E, 0x47, 0x0D, 0x0A, 0x1A, 0x0A] && PNG_END@ =~= seq![0x49u8, 0x45, 0x4E, 0x44]);
    assert(ZIP_HEADER@ =~= seq![0x50u8, 0x4B, 0x03, 0x04] && ZIP_END@ =~= seq![0x50u8, 0x4B, 0x05, 0x06]);
    assert(GIF_87@ =~= seq![0x47u8, 0x49, 0x46, 0x38, 0x37, 0x61] && GIF_89@ =~= seq![0x47u8, 0x49, 0x46, 0x38, 0x39, 0x61]);
    lemma_headers_differ(data);
}

/// The bytes of each embedded signature, and its risk.
proof fn lemma_embedded_bytes()
    ensures
        bytes::pattern(EMBEDDED_SIGNATURES@[0].0@) == seq![0x4Du8, 0x5A, 0x90, 0x00],
        EMBEDDED_SIGNATURES@[0].2 == 7_500,
        bytes::pattern(EMBEDDED_SIGNATURES@[1].0@) == seq![0x7Fu8, 0x45, 0x4C, 0x46],
        EMBEDDED_SIGNATURES@[1].2 == 7_000,
        bytes::pattern(EMBEDDED_SIGNATURES@[2].0@) == seq![0x50u8, 0x4B, 0x03, 0x04],
        EMBEDDED_SIGNATURES@[2].2 == 4_500,
        bytes::pattern(EMBEDDED_SIGNATURES@[3].0@) == seq![0x52u8, 0x61, 0x72, 0x21, 0x1A, 0x07],
        EMBEDDED_SIGNATURES@[3].2 == 5_000,
        bytes::pattern(EMBEDDED_SIGNATURES@[4].0@) == seq![0x37u8, 0x7A, 0xBC, 0xAF, 0x27, 0x1C],
        EMBEDDED_SIGNATURES@[4].2 == 5_000,
        bytes::pattern(EMBEDDED_SIGNATURES@[5].0@) == seq![0xCAu8, 0xFE, 0xBA, 0xBE],
        EMBEDDED_SIGNATURES@[5].2 == 5_500,
        bytes::pattern(EMBEDDED_SIGNATURES@[6].0@) == seq![0x23u8, 0x21, 0x2F, 0x62, 0x69, 0x6E, 0x2F, 0x73, 0x68],
        EMBEDDED_SIGNATURES@[6].2 == 5_000,
        bytes::pattern(EMBEDDED_SIGNATURES@[7].0@) == seq![0x23u8, 0x21, 0x2F, 0x62, 0x69, 0x6E, 0x2F, 0x62, 0x61, 0x73, 0x68],
        EMBEDDED_SIGNATURES@[7].2 == 5_000,
        bytes::pattern(EMBEDDED_SIGNATURES@[8].0@) == seq![0x3Cu8, 0x3F, 0x70, 0x68, 0x70],
        EMBEDDED_SIGNATURES@[8].2 == 6_000,
        bytes::pattern(EMBEDDED_SIGNATURES@[9].0@) == seq![0x3Cu8, 0x73, 0x63, 0x72, 0x69, 0x70, 0x74],
        EMBEDDED_SIGNATURES@[9].2 == 4_000,
{
    reveal_strlit("MZ\u{90}\u{0}");
    reveal_strlit("\u{7F}ELF");
    reveal_strlit("PK\u{3}\u{4}");
    reveal_strlit("Rar!\u{1A}\u{7}");
    reveal_strlit("7z\u{BC}\u{AF}\u{27}\u{1C}");
    reveal_strlit("\u{CA}\u{FE}\u{BA}\u{BE}");
    reveal_strlit("#!/bin/sh");
    reveal_strlit("#!/bin/bash");
    reveal_strlit("<?php");
    reveal_strlit("<script");
    assert(bytes::pattern(EMBEDDED_SIGNATURES@[0].0@) =~= seq![0x4Du8, 0x5A, 0x90, 0x00]);
    assert(bytes::pattern(EMBEDDED_SIGNATURES@[1].0@) =~= seq![0x7Fu8, 0x45, 0x4C, 0x46]);
    assert(bytes::pattern(EMBEDDED_SIGNATURES@[2].0@) =~= seq![0x50u8, 0x4B, 0x03, 0x04]);
    assert(bytes::pattern(EMBEDDED_SIGNATURES@[3].0@) =~= seq![0x52u8, 0x61, 0x72, 0x21, 0x1A, 0x07]);
    assert(bytes::pattern(EMBEDDED_SIGNATURES@[4].0@) =~= seq![0x37u8, 0x7A, 0xBC, 0xAF, 0x27, 0x1C]);
    assert(bytes::pattern(EMBEDDED_SIGNATURES@[5].0@) =~= seq![0xCAu8, 0xFE, 0xBA, 0xBE]);
    assert(bytes::pattern(EMBEDDED_SIGNATURES@[6].0@) =~= seq![0x23u8, 0x21, 0x2F, 0x62, 0x69, 0x6E, 0x2F, 0x73, 0x68]);
    assert(bytes::pattern(EMBEDDED_SIGNATURES@[7].0@) =~= seq![0x23u8, 0x21, 0x2F, 0x62, 0x69, 0x6E, 0x2F, 0x62, 0x61, 0x73, 0x68]);
    assert(bytes::pattern(EMBEDDED_SIGNATURES@[8].0@) =~= seq![0x3Cu8, 0x3F, 0x70, 0x68, 0x70]);
    assert(bytes::pattern(EMBEDDED_SIGNATURES@[9].0@) =~= seq![0x3Cu8, 0x73, 0x63, 0x72, 0x69, 0x70, 0x74]);
}

/// Where some bytes start with an embedded signature, one leads.
proof fn lemma_some_leads(tail: Seq<u8>, k: int)
    requires
        0 <= k < EMBEDDED_SIGNATURES@.len(),
        sequences::begins_with(tail, bytes::pattern(EMBEDDED_SIGNATURES@[k].0@)),
    ensures
        leading_signature(tail) is Some,
    decreases k,
{
    if forall|j: int|
        0 <= j < k ==> !sequences::begins_with(
            tail,
            bytes::pattern((#[trigger] EMBEDDED_SIGNATURES@[j]).0@),
        ) {
        assert(leading_signature_at(tail, k));
    } else {
        let j = choose|j: int|
            0 <= j < k && sequences::begins_with(
                tail,
                bytes::pattern((#[trigger] EMBEDDED_SIGNATURES@[j]).0@),
            );
        lemma_some_leads(tail, j);
    }
}

/// The signature that leads.
proof fn lemma_leading(tail: Seq<u8>, k: int)
    requires
        leading_signature(tail) == Some(k),
    ensures
        0 <= k < EMBEDDED_SIGNATURES@.len(),
        sequences::begins_with(tail, bytes::pattern(EMBEDDED_SIGNATURES@[k].0@)),
        tail[0] == bytes::pattern(EMBEDDED_SIGNATURES@[k].0@)[0],
        tail[0] == 0x4D <==> k == 0,
{
    assert(leading_signature_at(tail, k));
    lemma_embedded_bytes();
    let pat = bytes::pattern(EMBEDDED_SIGNATURES@[k].0@);
    assert(tail.subrange(0, pat.len() as int)[0] == tail[0]);
}

/// Data behind the end of a format is reported, once: as a hidden program,
/// archive or script where it starts as one, and otherwise as hidden data. A
/// Windows program weighs most. Less than sixty-four bytes are padding.
pub proof fn law_trailing_data_is_reported(
    p: Seq<u8>,
    t: Seq<u8>,
    filename: Seq<char>,
    format: Seq<char>,
)
    requires
        format_end(p + t) == Some((p.len() as int, format)),
    ensures
        trailing_findings(p + t).len() == if t.len() < 64 {
            0int
        } else {
            1
        },
        t.len() >= 64 ==> ({
            let f = structure_findings(p + t, filename)[0];
            let known = {
                ||| sequences::begins_with(t, seq![0x4Du8, 0x5A, 0x90, 0x00])
                ||| sequences::begins_with(t, seq![0x7Fu8, 0x45, 0x4C, 0x46])
                ||| sequences::begins_with(t, seq![0x50u8, 0x4B, 0x03, 0x04])
                ||| sequences::begins_with(t, seq![0x52u8, 0x61, 0x72, 0x21, 0x1A, 0x07])
                ||| sequences::begins_with(t, seq![0x37u8, 0x7A, 0xBC, 0xAF, 0x27, 0x1C])
                ||| sequences::begins_with(t, seq![0xCAu8, 0xFE, 0xBA, 0xBE])
                ||| sequences::begins_with(t, seq![0x23u8, 0x21, 0x2F, 0x62, 0x69, 0x6E, 0x2F, 0x73, 0x68])
                ||| sequences::begins_with(t, seq![0x23u8, 0x21, 0x2F, 0x62, 0x69, 0x6E, 0x2F, 0x62, 0x61, 0x73, 0x68])
                ||| sequences::begins_with(t, seq![0x3Cu8, 0x3F, 0x70, 0x68, 0x70])
                ||| sequences::begins_with(t, seq![0x3Cu8, 0x73, 0x63, 0x72, 0x69, 0x70, 0x74])
            };
            &&& structure_findings(p + t, filename).len() > 0
            &&& f.risk <= finding::worst_risk(structure_findings(p + t, filename))
            &&& known ==> f.severity == Severity::High && f.risk == if sequences::begins_with(
                t,
                seq![0x4Du8, 0x5A, 0x90, 0x00],
            ) {
                7_500int
            } else {
                7_000
            }
            &&& !known ==> f.severity == Severity::Medium && f.risk == 4_000
        }),
{
    let data = p + t;
    let tail = data.skip(p.len() as int);
    assert(tail =~= t);
    assert(trailing(data) == t.len());
    if t.len() >= 64 {
        let all = structure_findings(data, filename);
        assert(all[0] == trailing_findings(data)[0]);
        finding::lemma_worst_is_bound(all, 0);
        lemma_embedded_bytes();
        assert(EMBEDDED_SIGNATURES@.len() == 10);
        if let Some(k) = leading_signature(t) {
            lemma_leading(t, k);
            assert(t.len() > 0);
            if sequences::begins_with(t, seq![0x4Du8, 0x5A, 0x90, 0x00]) {
                assert(t.subrange(0, 4)[0] == t[0]);
            }
        }
        if sequences::begins_with(t, seq![0x4Du8, 0x5A, 0x90, 0x00]) {
            lemma_some_leads(t, 0);
        }
        if sequences::begins_with(t, seq![0x7Fu8, 0x45, 0x4C, 0x46]) {
            lemma_some_leads(t, 1);
        }
        if sequences::begins_with(t, seq![0x50u8, 0x4B, 0x03, 0x04]) {
            lemma_some_leads(t, 2);
        }
        if sequences::begins_with(t, seq![0x52u8, 0x61, 0x72, 0x21, 0x1A, 0x07]) {
            lemma_some_leads(t, 3);
        }
        if sequences::begins_with(t, seq![0x37u8, 0x7A, 0xBC, 0xAF, 0x27, 0x1C]) {
            lemma_some_leads(t, 4);
        }
        if sequences::begins_with(t, seq![0xCAu8, 0xFE, 0xBA, 0xBE]) {
            lemma_some_leads(t, 5);
        }
        if sequences::begins_with(t, seq![0x23u8, 0x21, 0x2F, 0x62, 0x69, 0x6E, 0x2F, 0x73, 0x68]) {
            lemma_some_leads(t, 6);
        }
        if sequences::begins_with(t, seq![0x23u8, 0x21, 0x2F, 0x62, 0x69, 0x6E, 0x2F, 0x62, 0x61, 0x73, 0x68]) {
            lemma_some_leads(t, 7);
        }
        if sequences::begins_with(t, seq![0x3Cu8, 0x3F, 0x70, 0x68, 0x70]) {
            lemma_some_leads(t, 8);
        }
        if sequences::begins_with(t, seq![0x3Cu8, 0x73, 0x63, 0x72, 0x69, 0x70, 0x74]) {
            lemma_some_leads(t, 9);
        }
    }
}

/// A finding about a signature is among the findings of all.
proof fn lemma_embedded_is_listed(data: Seq<u8>, n: nat, k: int)
    requires
        0 <= k < n,
        embedded_finding(data, k).len() == 1,
    ensures
        embedded_findings(data, n).contains(embedded_finding(data, k)[0]),
    decreases n,
{
    let all = embedded_findings(data, n);
    let before = embedded_findings(data, (n - 1) as nat);
    let f = embedded_finding(data, k)[0];
    if k == n - 1 {
        assert(all[before.len() as int] == f);
    } else {
        lemma_embedded_is_listed(data, (n - 1) as nat, k);
        let i = choose|i: int| 0 <= i < before.len() && before[i] == f;
        assert(all[i] == f);
    }
}

/// A signature that stands behind the front of the data stands first somewhere.
proof fn lemma_embedded_somewhere(data: Seq<u8>, k: int, at: int) -> (first: int)
    requires
        at >= 16,
        sequences::occurs_at(data, bytes::pattern(EMBEDDED_SIGNATURES@[k].0@), at),
    ensures
        embedded_at(data, k) == Some(first),
        first <= at,
{
    let pat = bytes::pattern(EMBEDDED_SIGNATURES@[k].0@);
    let body = data.skip(16);
    assert(body.subrange(at - 16, at - 16 + pat.len()) =~= data.subrange(at, at + pat.len()));
    assert(sequences::occurs_at(body, pat, at - 16));
    let i = sequences::lemma_first_exists(body, pat, at - 16);
    sequences::lemma_first(body, pat, i);
    i + 16
}

/// A program, archive or script inside image, sound or video data is reported,
/// at the weight of what it is, wherever it stands behind the front of the file
/// and before the end of the format.
pub proof fn law_what_hides_inside_media_is_reported(
    data: Seq<u8>,
    filename: Seq<char>,
    hidden: Seq<u8>,
    weight: int,
    at: int,
)
    requires
        ({
            ||| sequences::begins_with(data, seq![0x89u8, 0x50, 0x4E, 0x47, 0x0D, 0x0A, 0x1A, 0x0A])
            ||| sequences::begins_with(data, seq![0xFFu8, 0xD8, 0xFF])
            ||| sequences::begins_with(data, seq![0x47u8, 0x49, 0x46, 0x38, 0x37, 0x61])
            ||| sequences::begins_with(data, seq![0x47u8, 0x49, 0x46, 0x38, 0x39, 0x61])
            ||| sequences::begins_with(data, seq![0x42u8, 0x4D])
            ||| sequences::begins_with(data, seq![0x52u8, 0x49, 0x46, 0x46])
        }),
        ({
            ||| hidden == seq![0x4Du8, 0x5A, 0x90, 0x00] && weight == 7_500
            ||| hidden == seq![0x7Fu8, 0x45, 0x4C, 0x46] && weight == 7_000
            ||| hidden == seq![0x50u8, 0x4B, 0x03, 0x04] && weight == 4_500
            ||| hidden == seq![0x52u8, 0x61, 0x72, 0x21, 0x1A, 0x07] && weight == 5_000
            ||| hidden == seq![0x37u8, 0x7A, 0xBC, 0xAF, 0x27, 0x1C] && weight == 5_000
            ||| hidden == seq![0xCAu8, 0xFE, 0xBA, 0xBE] && weight == 5_500
            ||| hidden == seq![0x23u8, 0x21, 0x2F, 0x62, 0x69, 0x6E, 0x2F, 0x73, 0x68] && weight == 5_000
            ||| hidden == seq![0x23u8, 0x21, 0x2F, 0x62, 0x69, 0x6E, 0x2F, 0x62, 0x61, 0x73, 0x68] && weight == 5_000
            ||| hidden == seq![0x3Cu8, 0x3F, 0x70, 0x68, 0x70] && weight == 6_000
            ||| hidden == seq![0x3Cu8, 0x73, 0x63, 0x72, 0x69, 0x70, 0x74] && weight == 4_000
        }),
        at >= 16,
        sequences::occurs_at(data, hidden, at),
        format_end(data) matches Some((end, _)) ==> at < end,
    ensures
        exists|i: int|
            0 <= i < structure_findings(data, filename).len() && (
            #[trigger] structure_findings(data, filename)[i]).risk == weight && structure_findings(
                data,
                filename,
            )[i].severity == Severity::High,
        finding::worst_risk(structure_findings(data, filename)) >= weight,
{
    assert(PNG_HEADER@ =~= seq![0x89u8, 0x50, 0x4E, 0x47, 0x0D, 0x0A, 0x1A, 0x0A]);
    assert(JPEG_HEADER@ =~= seq![0xFFu8, 0xD8, 0xFF]);
    assert(GIF_87@ =~= seq![0x47u8, 0x49, 0x46, 0x38, 0x37, 0x61] && GIF_89@ =~= seq![0x47u8, 0x49, 0x46, 0x38, 0x39, 0x61]);
    assert(BMP_HEADER@ =~= seq![0x42u8, 0x4D]);
    assert(RIFF_HEADER@ =~= seq![0x52u8, 0x49, 0x46, 0x46]);
    assert(opaque_media(data));
    lemma_embedded_bytes();
    assert(EMBEDDED_SIGNATURES@.len() == 10);
    let k = if hidden == seq![0x4Du8, 0x5A, 0x90, 0x00] {
        0int
    } else if hidden == seq![0x7Fu8, 0x45, 0x4C, 0x46] {
        1
    } else if hidden == seq![0x50u8, 0x4B, 0x03, 0x04] {
        2
    } else if hidden == seq![0x52u8, 0x61, 0x72, 0x21, 0x1A, 0x07] {
        3
    } else if hidden == seq![0x37u8, 0x7A, 0xBC, 0xAF, 0x27, 0x1C] {
        4
    } else if hidden == seq![0xCAu8, 0xFE, 0xBA, 0xBE] {
        5
    } else if hidden == seq![0x23u8, 0x21, 0x2F, 0x62, 0x69, 0x6E, 0x2F, 0x73, 0x68] {
        6
    } else if hidden == seq![0x23u8, 0x21, 0x2F, 0x62, 0x69, 0x6E, 0x2F, 0x62, 0x61, 0x73, 0x68] {
        7
    } else if hidden == seq![0x3Cu8, 0x3F, 0x70, 0x68, 0x70] {
        8
    } else {
        9
    };
    let first = lemma_embedded_somewhere(data, k, at);
    assert(embedded_finding(data, k).len() == 1);
    lemma_embedded_is_listed(data, 10, k);
    let f = embedded_finding(data, k)[0];
    let inner = embedded_findings(data, 10);
    let j = choose|j: int| 0 <= j < inner.len() && inner[j] == f;
    let all = structure_findings(data, filename);
    let i = trailing_findings(data).len() + j;
    assert(all[i] == f);
    finding::lemma_worst_is_bound(all, i);
}

/// Nothing is reported inside media in which no signature stands behind the
/// front.
pub proof fn law_plain_media_hides_nothing(data: Seq<u8>, n: nat)
    requires
        n <= EMBEDDED_SIGNATURES@.len(),
        forall|k: int, at: int|
            0 <= k < EMBEDDED_SIGNATURES@.len() && at >= 16 ==> !#[trigger] sequences::occurs_at(
                data,
                bytes::pattern((#[trigger] EMBEDDED_SIGNATURES@[k]).0@),
                at,
            ),
    ensures
        embedded_findings(data, n).len() == 0,
    decreases n,
{
    if n > 0 {
        law_plain_media_hides_nothing(data, (n - 1) as nat);
        let pat = bytes::pattern(EMBEDDED_SIGNATURES@[n - 1].0@);
        let from = if data.len() < OWN_HEADER {
            data.len() as int
        } else {
            OWN_HEADER as int
        };
        let body = data.skip(from);
        lemma_embedded_bytes();
        assert(pat.len() > 0);
        assert forall|i: int| !sequences::occurs_at(body, pat, i) by {
            if sequences::occurs_at(body, pat, i) {
                assert(data.subrange(from + i, from + i + pat.len()) =~= body.subrange(
                    i,
                    i + pat.len(),
                ));
                assert(sequences::occurs_at(data, pat, from + i));
            }
        }
        assert(!sequences::occurs(body, pat));
    }
}

/// A name deceives where an extension that looks like something to read, watch
/// or listen to stands before one that runs, and nowhere else.
pub proof fn law_which_extensions_deceive(visible: Seq<char>, actual: Seq<char>)
    ensures
        deceptive(visible, actual) <==> ({
            ||| actual == "exe"@
            ||| actual == "scr"@
            ||| actual == "com"@
            ||| actual == "bat"@
            ||| actual == "cmd"@
            ||| actual == "pif"@
            ||| actual == "vbs"@
            ||| actual == "vbe"@
            ||| actual == "js"@
            ||| actual == "jse"@
            ||| actual == "wsf"@
            ||| actual == "wsh"@
            ||| actual == "msi"@
            ||| actual == "jar"@
            ||| actual == "ps1"@
            ||| actual == "hta"@
            ||| actual == "cpl"@
            ||| actual == "lnk"@
        }) && ({
            ||| visible == "pdf"@
            ||| visible == "doc"@
            ||| visible == "docx"@
            ||| visible == "xls"@
            ||| visible == "xlsx"@
            ||| visible == "ppt"@
            ||| visible == "pptx"@
            ||| visible == "txt"@
            ||| visible == "rtf"@
            ||| visible == "jpg"@
            ||| visible == "jpeg"@
            ||| visible == "png"@
            ||| visible == "gif"@
            ||| visible == "mp3"@
            ||| visible == "mp4"@
            ||| visible == "avi"@
            ||| visible == "zip"@
            ||| visible == "csv"@
        }),
{
    let runs = EXECUTABLE@;
    let shows = DOCUMENT@;
    assert(runs.len() == 18 && shows.len() == 18);
    assert(runs[0]@ == "exe"@);
    assert(runs[1]@ == "scr"@);
    assert(runs[2]@ == "com"@);
    assert(runs[3]@ == "bat"@);
    assert(runs[4]@ == "cmd"@);
    assert(runs[5]@ == "pif"@);
    assert(runs[6]@ == "vbs"@);
    assert(runs[7]@ == "vbe"@);
    assert(runs[8]@ == "js"@);
    assert(runs[9]@ == "jse"@);
    assert(runs[10]@ == "wsf"@);
    assert(runs[11]@ == "wsh"@);
    assert(runs[12]@ == "msi"@);
    assert(runs[13]@ == "jar"@);
    assert(runs[14]@ == "ps1"@);
    assert(runs[15]@ == "hta"@);
    assert(runs[16]@ == "cpl"@);
    assert(runs[17]@ == "lnk"@);
    assert(shows[0]@ == "pdf"@);
    assert(shows[1]@ == "doc"@);
    assert(shows[2]@ == "docx"@);
    assert(shows[3]@ == "xls"@);
    assert(shows[4]@ == "xlsx"@);
    assert(shows[5]@ == "ppt"@);
    assert(shows[6]@ == "pptx"@);
    assert(shows[7]@ == "txt"@);
    assert(shows[8]@ == "rtf"@);
    assert(shows[9]@ == "jpg"@);
    assert(shows[10]@ == "jpeg"@);
    assert(shows[11]@ == "png"@);
    assert(shows[12]@ == "gif"@);
    assert(shows[13]@ == "mp3"@);
    assert(shows[14]@ == "mp4"@);
    assert(shows[15]@ == "avi"@);
    assert(shows[16]@ == "zip"@);
    assert(shows[17]@ == "csv"@);
}

/// A name with two extensions, of which the first deceives, is reported,
/// whatever stands before them and whatever is in the file.
pub proof fn law_a_double_extension_is_reported(
    data: Seq<u8>,
    stem: Seq<char>,
    visible: Seq<char>,
    actual: Seq<char>,
)
    requires
        !visible.contains('.'),
        !actual.contains('.'),
    ensures
        ({
            let name = stem + seq!['.'] + visible + seq!['.'] + actual;
            let all = structure_findings(data, name);
            &&& disguise(name) == if deceptive(text::lowercase(visible), text::lowercase(actual)) {
                Some((text::lowercase(visible), text::lowercase(actual)))
            } else {
                None
            }
            &&& deceptive(text::lowercase(visible), text::lowercase(actual)) ==> all.len() > 0
                && all.last().severity == Severity::High && all.last().risk == 6_500
                && finding::worst_risk(all) >= 6_500
            &&& !deceptive(text::lowercase(visible), text::lowercase(actual)) ==> name_findings(
                name,
            ).len() == 0
        }),
{
    let front = stem + seq!['.'] + visible;
    let name = front + seq!['.'] + actual;
    let j = front.len() as int;
    assert forall|k: int| j < k < name.len() implies name[k] != '.' by {
        assert(name[k] == actual[k - j - 1]);
        assert(actual.contains(actual[k - j - 1]));
    }
    assert(name[j] == '.');
    text::lemma_last_index(name, '.', j);
    assert(name.take(j) =~= front);
    let i = stem.len() as int;
    assert forall|k: int| i < k < front.len() implies front[k] != '.' by {
        assert(front[k] == visible[k - i - 1]);
        assert(visible.contains(visible[k - i - 1]));
    }
    assert(front[i] == '.');
    text::lemma_last_index(front, '.', i);
    assert(name.subrange(i + 1, j) =~= visible);
    assert(name.subrange(j + 1, name.len() as int) =~= actual);
    let all = structure_findings(data, name);
    if deceptive(text::lowercase(visible), text::lowercase(actual)) {
        let f = double_extension(text::lowercase(visible), text::lowercase(actual));
        assert(all.last() == f);
        finding::lemma_worst_is_bound(all, all.len() - 1);
    }
}

/// A name with no more than one dot has no second extension to hide behind.
pub proof fn law_one_dot_hides_nothing(stem: Seq<char>, ext: Seq<char>)
    requires
        !stem.contains('.'),
        !ext.contains('.'),
    ensures
        name_findings(stem).len() == 0,
        name_findings(stem + seq!['.'] + ext).len() == 0,
{
    let name = stem + seq!['.'] + ext;
    let j = stem.len() as int;
    assert forall|k: int| j < k < name.len() implies name[k] != '.' by {
        assert(name[k] == ext[k - j - 1]);
        assert(ext.contains(ext[k - j - 1]));
    }
    assert(name[j] == '.');
    text::lemma_last_index(name, '.', j);
    assert(name.take(j) =~= stem);
    lemma_no_dot(stem);
}

/// A name without a dot has no last one.
proof fn lemma_no_dot(s: Seq<char>)
    requires
        !s.contains('.'),
    ensures
        text::last_index(s, '.') is None,
{
    if exists|i: int| text::last_index_at(s, '.', i) {
        let i = choose|i: int| text::last_index_at(s, '.', i);
        assert(s.contains(s[i]));
    }
}

/// Only media is searched for other formats: in a file that starts as none of
/// them, programs and archives may stand wherever they like.
pub proof fn law_only_media_is_searched(data: Seq<u8>, filename: Seq<char>)
    requires
        !sequences::begins_with(data, seq![0x89u8, 0x50, 0x4E, 0x47, 0x0D, 0x0A, 0x1A, 0x0A]),
        !sequences::begins_with(data, seq![0xFFu8, 0xD8, 0xFF]),
        !sequences::begins_with(data, seq![0x47u8, 0x49, 0x46, 0x38, 0x37, 0x61]),
        !sequences::begins_with(data, seq![0x47u8, 0x49, 0x46, 0x38, 0x39, 0x61]),
        !sequences::begins_with(data, seq![0x42u8, 0x4D]),
        !sequences::begins_with(data, seq![0x52u8, 0x49, 0x46, 0x46]),
    ensures
        structure_findings(data, filename) == trailing_findings(data) + name_findings(filename),
{
    assert(PNG_HEADER@ =~= seq![0x89u8, 0x50, 0x4E, 0x47, 0x0D, 0x0A, 0x1A, 0x0A]);
    assert(JPEG_HEADER@ =~= seq![0xFFu8, 0xD8, 0xFF]);
    assert(GIF_87@ =~= seq![0x47u8, 0x49, 0x46, 0x38, 0x37, 0x61]);
    assert(GIF_89@ =~= seq![0x47u8, 0x49, 0x46, 0x38, 0x39, 0x61]);
    assert(BMP_HEADER@ =~= seq![0x42u8, 0x4D]);
    assert(RIFF_HEADER@ =~= seq![0x52u8, 0x49, 0x46, 0x46]);
    assert(trailing_findings(data) + Seq::<FindingModel>::empty() =~= trailing_findings(data));
}

/// The parts of a structural analysis are all there is to it: what trails, what
/// hides inside, and what the name hides.
pub proof fn law_nothing_else_is_reported(data: Seq<u8>, filename: Seq<char>)
    requires
        trailing(data) < 64,
        embedded_findings(data, EMBEDDED_SIGNATURES@.len()).len() == 0,
        disguise(filename) is None,
    ensures
        structure_findings(data, filename).len() == 0,
{
}

} // verus!
