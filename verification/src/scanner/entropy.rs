//! Entropy: finding packed, encrypted, or hidden payloads.
//!
//! Entropy measures how unpredictable bytes are, in bits per byte. It is a
//! shape, not a signature, and what it means depends on what the file claims to
//! be: close to eight is right for an archive and wrong for a text file.
//!
//! The measuring itself takes logarithms and is left to the caller. This module
//! counts the bytes, says which windows are to be measured, and draws the
//! conclusions from the measurements, which count thousand-millionths of a bit.
use crate::bytes;
use crate::bytes::pattern_bytes;
use crate::numbers;
use crate::numbers::{push_decimal, push_entropy, push_risk};
use crate::sequences;
use crate::sequences::starts_with;
use crate::text;
use crate::text::is_one_of;
use vstd::prelude::*;

verus! {

/// Size of the windows in which entropy is measured.
pub const WINDOW_SIZE: usize = 4_096;

/// Distance between the starts of two windows.
pub const WINDOW_STEP: usize = 2_048;

/// Less than this is too little for a meaningful estimate.
pub const MIN_WINDOW: usize = 1_024;

/// What was measured of a file.
#[derive(Debug)]
pub struct Measurement {
    /// Entropy across the whole file.
    pub overall: u64,
    /// Entropy of each window.
    pub windows: Vec<u64>,
}

/// Result of the analysis.
#[derive(Debug)]
pub struct EntropyResult {
    pub flagged: bool,
    pub flags: Vec<String>,
    pub risk: i64,
    /// Entropy across the whole file.
    pub overall: u64,
    /// Highest entropy of a window.
    pub max_window: u64,
    /// Byte offset of that window.
    pub max_window_offset: usize,
}

/// What a result says.
pub struct EntropyModel {
    pub flagged: bool,
    pub flags: Seq<Seq<char>>,
    pub risk: int,
    pub overall: u64,
    pub max_window: u64,
    pub max_window_offset: int,
}

impl View for EntropyResult {
    type V = EntropyModel;

    open spec fn view(&self) -> EntropyModel {
        EntropyModel {
            flagged: self.flagged,
            flags: text::texts(self.flags@),
            risk: self.risk as int,
            overall: self.overall,
            max_window: self.max_window,
            max_window_offset: self.max_window_offset as int,
        }
    }
}

/// Extensions of formats that are compressed, in which high entropy is
/// expected.
pub const COMPRESSED_EXTENSIONS: [&'static str; 25] = [
    "zip", "gz", "tgz", "bz2", "xz", "7z", "rar", "jpg", "jpeg", "png", "gif", "webp", "mp3", "mp4",
    "avi", "mkv", "mov", "docx", "xlsx", "pptx", "jar", "apk", "pdf", "woff", "woff2",
];

/// The first bytes of formats that are compressed.
pub const COMPRESSED_HEADERS: [&'static str; 7] = [
    "PK\u{3}\u{4}",
    "\u{1F}\u{8B}",
    "\u{FF}\u{D8}\u{FF}",
    "\u{89}PNG",
    "Rar!",
    "7z\u{BC}\u{AF}\u{27}\u{1C}",
    "%PDF",
];

/// Extensions of formats that are mostly plain text.
pub const TEXT_EXTENSIONS: [&'static str; 24] = [
    "txt", "csv", "log", "md", "json", "xml", "html", "htm", "css", "js", "ts", "py", "rs", "c",
    "h", "cpp", "java", "sh", "bat", "ps1", "yml", "yaml", "ini", "cfg",
];

// ---------------------------------------------------------------------------
// What is to be measured
// ---------------------------------------------------------------------------

/// How often a byte stands in the data.
pub open spec fn occurrences(data: Seq<u8>, b: u8) -> nat
    decreases data.len(),
{
    if data.len() == 0 {
        0
    } else {
        occurrences(data.drop_last(), b) + if data.last() == b {
            1nat
        } else {
            0nat
        }
    }
}

proof fn lemma_occurrences_bound(data: Seq<u8>, b: u8)
    ensures
        occurrences(data, b) <= data.len(),
    decreases data.len(),
{
    if data.len() > 0 {
        lemma_occurrences_bound(data.drop_last(), b);
    }
}

/// Counts how often each byte stands in the data.
pub fn byte_counts(data: &[u8]) -> (r: Vec<u64>)
    ensures
        r@.len() == 256,
        forall|b: u8| #[trigger] r@[b as int] == occurrences(data@, b),
{
    let mut out: Vec<u64> = Vec::new();
    let mut k: usize = 0;
    while k < 256
        invariant
            k <= 256,
            out@.len() == k,
            forall|j: int| 0 <= j < k ==> #[trigger] out@[j] == 0,
        decreases 256 - k,
    {
        out.push(0);
        k += 1;
    }
    assert(data@.take(0) =~= Seq::<u8>::empty());
    let n: usize = data.len();
    let mut i: usize = 0;
    while i < n
        invariant
            n == data@.len(),
            i <= n,
            out@.len() == 256,
            forall|b: u8|
                #[trigger] out@[b as int] == occurrences(data@.take(i as int), b),
        decreases n - i,
    {
        proof {
            let longer = data@.take(i + 1);
            assert(longer.drop_last() =~= data@.take(i as int));
            assert(longer.last() == data@[i as int]);
            lemma_occurrences_bound(data@.take(i as int), data@[i as int]);
            assert forall|b: u8| #[trigger]
                occurrences(longer, b) == occurrences(data@.take(i as int), b) + (if b
                == data@[i as int] {
                1nat
            } else {
                0nat
            }) by {}
        }
        let at: usize = data[i] as usize;
        let ghost before = out@;
        out.set(at, out[at] + 1);
        proof {
            assert forall|b: u8| #[trigger]
                out@[b as int] == occurrences(data@.take(i + 1), b) by {
                assert(before[b as int] == occurrences(data@.take(i as int), b));
            }
        }
        i += 1;
    }
    assert(data@.take(n as int) =~= data@);
    out
}

/// How many windows a file of this length has.
pub open spec fn window_count(len: nat) -> nat {
    if len < MIN_WINDOW {
        0
    } else if len <= WINDOW_SIZE {
        1
    } else {
        ((len - WINDOW_SIZE + WINDOW_STEP - 1) / WINDOW_STEP as int + 1) as nat
    }
}

/// Where window `k` starts.
pub open spec fn window_start(k: int) -> int {
    WINDOW_STEP * k
}

/// Where window `k` of a file of this length ends.
pub open spec fn window_end(len: nat, k: int) -> int {
    if window_start(k) + WINDOW_SIZE < len {
        window_start(k) + WINDOW_SIZE
    } else {
        len as int
    }
}

/// The windows of a file of this length: where each starts, and where it ends.
pub fn windows(len: usize) -> (r: Vec<(usize, usize)>)
    ensures
        r@.len() == window_count(len as nat),
        forall|k: int|
            0 <= k < r@.len() ==> (#[trigger] r@[k]).0 == window_start(k) && r@[k].1 == window_end(
                len as nat,
                k,
            ) && r@[k].0 < r@[k].1 <= len,
{
    let mut out: Vec<(usize, usize)> = Vec::new();
    if len < MIN_WINDOW {
        return out;
    }
    let mut k: usize = 0;
    let mut start: usize = 0;
    loop
        invariant
            len >= MIN_WINDOW,
            start == window_start(k as int),
            start < len,
            k > 0 ==> start - WINDOW_STEP + WINDOW_SIZE < len,
            out@.len() == k,
            forall|j: int|
                0 <= j < k ==> (#[trigger] out@[j]).0 == window_start(j) && out@[j].1 == window_end(
                    len as nat,
                    j,
                ) && out@[j].0 < out@[j].1 <= len,
        decreases len - start,
    {
        if len - start <= WINDOW_SIZE {
            out.push((start, len));
            assert(window_count(len as nat) == k + 1) by (nonlinear_arith)
                requires
                    start == 2_048 * k,
                    len >= 1_024,
                    len - start <= 4_096,
                    k > 0 ==> start - 2_048 + 4_096 < len,
                    window_count(len as nat) == (if len < 1_024 {
                        0
                    } else if len <= 4_096 {
                        1int
                    } else {
                        (len - 4_096 + 2_048 - 1) / 2_048 + 1
                    }),
                    k >= 0,
            ;
            return out;
        }
        out.push((start, start + WINDOW_SIZE));
        start = start + WINDOW_STEP;
        k += 1;
    }
}

// ---------------------------------------------------------------------------
// What it means
// ---------------------------------------------------------------------------

/// The highest of some measurements, and the first window that reaches it.
pub open spec fn peak(list: Seq<u64>) -> (u64, int)
    decreases list.len(),
{
    if list.len() == 0 {
        (0, 0)
    } else {
        let before = peak(list.drop_last());
        if list.last() > before.0 {
            (list.last(), list.len() - 1)
        } else {
            before
        }
    }
}

/// The data starts like a compressed format.
pub open spec fn starts_compressed(data: Seq<u8>) -> bool {
    exists|i: int|
        0 <= i < COMPRESSED_HEADERS@.len() && sequences::begins_with(
            data,
            bytes::pattern((#[trigger] COMPRESSED_HEADERS@[i])@),
        )
}

/// High entropy is expected, by the extension or by the content.
pub open spec fn high_entropy_expected(data: Seq<u8>, ext: Seq<char>) -> bool {
    text::one_of(ext, COMPRESSED_EXTENSIONS@) || starts_compressed(data)
}

/// Six and a half bits.
pub const HIGH_FOR_TEXT: u64 = 6_500_000_000;

/// Five and a half bits.
pub const RAISED_FOR_TEXT: u64 = 5_500_000_000;

/// Seven bits and a fifth.
pub const HIGH_OVERALL: u64 = 7_200_000_000;

/// Seven and a half bits.
pub const HIGH_IN_WINDOW: u64 = 7_500_000_000;

/// Six and a half bits.
pub const LOW_OVERALL: u64 = 6_500_000_000;

pub const NOT_TEXT: &'static str = " file that should be plain text \
     (text is typically 4.0-5.0) - content is encrypted, compressed or binary";

pub const PACKED: &'static str = " across the whole file - packed, obfuscated \
     or encrypted (unpacked executables are typically 5.5-6.5)";

pub const EMBEDDED_PAYLOAD: &'static str = ") - embedded encrypted or \
     compressed payload";

/// How a risk introduces a flag.
pub open spec fn flagged_with(risk: int) -> Seq<char> {
    "[risk="@ + numbers::risk_text(risk) + "] "@
}

/// What is to be said of a file that should be text, and the risk.
pub open spec fn text_verdict(overall: u64, ext: Seq<char>) -> (Seq<Seq<char>>, int) {
    if overall > HIGH_FOR_TEXT {
        (
            seq![
                flagged_with(7_000) + "Entropy "@ + numbers::entropy_text(overall as nat)
                    + " in a ."@ + ext + NOT_TEXT@,
            ],
            7_000,
        )
    } else if overall > RAISED_FOR_TEXT {
        (
            seq![
                flagged_with(3_500) + "Entropy "@ + numbers::entropy_text(overall as nat)
                    + " is high for a ."@ + ext + " text file"@,
            ],
            3_500,
        )
    } else {
        (Seq::empty(), 0)
    }
}

/// A file of this length holds a region of high entropy in otherwise ordinary
/// content.
pub open spec fn localised(overall: u64, max_window: u64, len: nat) -> bool {
    max_window > HIGH_IN_WINDOW && overall < LOW_OVERALL && len > 2 * WINDOW_SIZE
}

/// What is to be said of any other file in which high entropy is not
/// expected, and the risk.
pub open spec fn binary_verdict(overall: u64, max_window: u64, offset: int, len: nat) -> (
    Seq<Seq<char>>,
    int,
) {
    let packed = overall > HIGH_OVERALL;
    let local = localised(overall, max_window, len);
    (
        (if packed {
            seq![
                flagged_with(5_000) + "Entropy "@ + numbers::entropy_text(overall as nat) + PACKED@,
            ]
        } else {
            Seq::empty()
        }) + (if local {
            seq![
                flagged_with(4_500) + "Localised high-entropy region (entropy "@
                    + numbers::entropy_text(max_window as nat) + ") at offset "@
                    + numbers::decimal(offset as nat) + " within otherwise low-entropy content ("@
                    + numbers::entropy_text(overall as nat) + EMBEDDED_PAYLOAD@,
            ]
        } else {
            Seq::empty()
        }),
        if packed {
            5_000
        } else if local {
            4_500
        } else {
            0
        },
    )
}

/// What the measurements say of a file whose extension is `ext`, in lower
/// case.
pub open spec fn conclusion(data: Seq<u8>, ext: Seq<char>, overall: u64, measured: Seq<u64>) -> EntropyModel {
    let (max_window, k) = peak(measured);
    let offset = window_start(k);
    let (flags, risk) = if text::one_of(ext, TEXT_EXTENSIONS@) {
        text_verdict(overall, ext)
    } else if !high_entropy_expected(data, ext) {
        binary_verdict(overall, max_window, offset, data.len())
    } else {
        (Seq::empty(), 0)
    };
    EntropyModel {
        flagged: flags.len() > 0,
        flags,
        risk,
        overall,
        max_window,
        max_window_offset: offset,
    }
}

/// Formats whose content is compressed, so that high entropy is expected.
pub fn is_expected_high_entropy(data: &[u8], claimed_ext: &str) -> (r: bool)
    ensures
        r == high_entropy_expected(data@, claimed_ext@),
{
    if is_one_of(claimed_ext, &COMPRESSED_EXTENSIONS) {
        return true;
    }
    let mut i: usize = 0;
    while i < COMPRESSED_HEADERS.len()
        invariant
            i <= COMPRESSED_HEADERS@.len(),
            forall|j: int|
                0 <= j < i ==> !sequences::begins_with(
                    data@,
                    bytes::pattern((#[trigger] COMPRESSED_HEADERS@[j])@),
                ),
        decreases COMPRESSED_HEADERS@.len() - i,
    {
        let pat = pattern_bytes(COMPRESSED_HEADERS[i]);
        if starts_with(data, pat.as_slice()) {
            assert(sequences::begins_with(
                data@,
                bytes::pattern(COMPRESSED_HEADERS@[i as int]@),
            ));
            return true;
        }
        i += 1;
    }
    false
}

/// Formats that should be mostly plain text.
pub fn should_be_text(claimed_ext: &str) -> (r: bool)
    ensures
        r == text::one_of(claimed_ext@, TEXT_EXTENSIONS@),
{
    is_one_of(claimed_ext, &TEXT_EXTENSIONS)
}

/// The highest of some measurements, and the first window that reaches it.
fn find_peak(list: &[u64]) -> (r: (u64, usize))
    ensures
        r.0 == peak(list@).0,
        r.1 == peak(list@).1,
        r.1 == 0 || r.1 < list@.len(),
{
    let mut best: u64 = 0;
    let mut at: usize = 0;
    let mut i: usize = 0;
    while i < list.len()
        invariant
            i <= list@.len(),
            best == peak(list@.take(i as int)).0,
            at == peak(list@.take(i as int)).1,
            at == 0 || at < i,
        decreases list@.len() - i,
    {
        assert(list@.take(i + 1).drop_last() =~= list@.take(i as int));
        if list[i] > best {
            best = list[i];
            at = i;
        }
        i += 1;
    }
    assert(list@.take(list@.len() as int) =~= list@);
    (best, at)
}

/// The start of a flag.
fn flag_start(risk: i64) -> (r: String)
    ensures
        r@ == flagged_with(risk as int),
{
    let mut out: String = "[risk=".to_string();
    push_risk(&mut out, risk);
    out.append("] ");
    out
}

/// Judges a file that should be text.
fn judge_text(overall: u64, ext: &str) -> (r: (Vec<String>, i64))
    ensures
        text::texts(r.0@) == text_verdict(overall, ext@).0,
        r.1 == text_verdict(overall, ext@).1,
{
    let mut flags: Vec<String> = Vec::new();
    let mut risk: i64 = 0;
    if overall > HIGH_FOR_TEXT {
        risk = 7_000;
        let mut f = flag_start(risk);
        f.append("Entropy ");
        push_entropy(&mut f, overall);
        f.append(" in a .");
        f.append(ext);
        f.append(NOT_TEXT);
        flags.push(f);
    } else if overall > RAISED_FOR_TEXT {
        risk = 3_500;
        let mut f = flag_start(risk);
        f.append("Entropy ");
        push_entropy(&mut f, overall);
        f.append(" is high for a .");
        f.append(ext);
        f.append(" text file");
        flags.push(f);
    }
    assert(text::texts(flags@) =~= text_verdict(overall, ext@).0);
    (flags, risk)
}

/// Judges any other file in which high entropy is not expected.
fn judge_binary(overall: u64, max_window: u64, offset: usize, len: usize) -> (r: (Vec<String>, i64))
    ensures
        text::texts(r.0@) == binary_verdict(overall, max_window, offset as int, len as nat).0,
        r.1 == binary_verdict(overall, max_window, offset as int, len as nat).1,
{
    let mut flags: Vec<String> = Vec::new();
    let mut risk: i64 = 0;
    if overall > HIGH_OVERALL {
        risk = 5_000;
        let mut f = flag_start(risk);
        f.append("Entropy ");
        push_entropy(&mut f, overall);
        f.append(PACKED);
        flags.push(f);
    }
    if max_window > HIGH_IN_WINDOW && overall < LOW_OVERALL && len > 2 * WINDOW_SIZE {
        risk = 4_500;
        let mut f = flag_start(risk);
        f.append("Localised high-entropy region (entropy ");
        push_entropy(&mut f, max_window);
        f.append(") at offset ");
        push_decimal(&mut f, offset as u64);
        f.append(" within otherwise low-entropy content (");
        push_entropy(&mut f, overall);
        f.append(EMBEDDED_PAYLOAD);
        flags.push(f);
    }
    assert(text::texts(flags@) =~= binary_verdict(
        overall,
        max_window,
        offset as int,
        len as nat,
    ).0);
    (flags, risk)
}

/// Draws the conclusions from the measurements of a complete file.
pub fn analyse(data: &[u8], claimed_ext: &str, measured: &Measurement) -> (r: EntropyResult)
    requires
        measured.windows@.len() == window_count(data@.len()),
    ensures
        r@ == conclusion(
            data@,
            text::lowercase(claimed_ext@),
            measured.overall,
            measured.windows@,
        ),
{
    let ext = claimed_ext.to_lowercase();
    conclude(data, ext.as_str(), measured)
}

/// Draws the conclusions from the measurements of a complete file whose
/// extension is `ext`, in lower case.
pub fn conclude(data: &[u8], ext: &str, measured: &Measurement) -> (r: EntropyResult)
    requires
        measured.windows@.len() == window_count(data@.len()),
    ensures
        r@ == conclusion(data@, ext@, measured.overall, measured.windows@),
{
    let len: usize = data.len();
    let overall: u64 = measured.overall;
    let (max_window, k) = find_peak(measured.windows.as_slice());
    assert(WINDOW_STEP * k <= len) by {
        assert(k == 0 || k < window_count(len as nat));
    }
    let offset: usize = WINDOW_STEP * k;
    let (flags, risk) = if should_be_text(ext) {
        judge_text(overall, ext)
    } else if !is_expected_high_entropy(data, ext) {
        judge_binary(overall, max_window, offset, len)
    } else {
        let none: Vec<String> = Vec::new();
        assert(text::texts(none@) =~= Seq::<Seq<char>>::empty());
        (none, 0)
    };
    assert(text::texts(flags@).len() == flags@.len());
    EntropyResult {
        flagged: flags.len() > 0,
        flags,
        risk,
        overall,
        max_window,
        max_window_offset: offset,
    }
}

// ---------------------------------------------------------------------------
// Laws
// ---------------------------------------------------------------------------

/// Every byte of a file that is large enough to be measured lies in a window.
pub proof fn law_windows_cover_the_file(len: nat, i: int)
    requires
        len >= MIN_WINDOW,
        0 <= i < len,
    ensures
        exists|k: int|
            0 <= k < window_count(len) && window_start(k) <= i < #[trigger] window_end(len, k),
{
    if len <= WINDOW_SIZE {
        assert(window_start(0) <= i < window_end(len, 0));
    } else {
        let k = i / WINDOW_STEP as int;
        let last = window_count(len) - 1;
        if k <= last {
            assert(window_start(k) <= i < window_end(len, k));
        } else {
            assert(window_start(last) <= i < window_end(len, last));
        }
    }
}

/// High entropy in a format that is compressed, and that is no text, is no
/// anomaly, whatever was measured.
pub proof fn law_compressed_formats_are_not_flagged(
    data: Seq<u8>,
    ext: Seq<char>,
    overall: u64,
    measured: Seq<u64>,
)
    requires
        high_entropy_expected(data, ext),
        !text::one_of(ext, TEXT_EXTENSIONS@),
    ensures
        !conclusion(data, ext, overall, measured).flagged,
        conclusion(data, ext, overall, measured).risk == 0,
{
}

/// The reported window is one that was measured, and none is higher.
pub proof fn law_reported_window_is_the_highest(list: Seq<u64>, i: int)
    requires
        0 <= i < list.len(),
    ensures
        list[i] <= peak(list).0,
        peak(list).0 > 0 ==> 0 <= peak(list).1 < list.len() && list[peak(list).1] == peak(list).0,
    decreases list.len(),
{
    let shorter = list.drop_last();
    if i < shorter.len() {
        law_reported_window_is_the_highest(shorter, i);
        assert(shorter[i] == list[i]);
    } else if shorter.len() > 0 {
        law_reported_window_is_the_highest(shorter, 0);
    } else {
        assert(peak(shorter).0 == 0);
    }
}

/// The risk that the measurements give is a risk.
pub proof fn law_entropy_risk_is_bounded(
    data: Seq<u8>,
    ext: Seq<char>,
    overall: u64,
    measured: Seq<u64>,
)
    ensures
        0 <= conclusion(data, ext, overall, measured).risk <= numbers::RISK_ONE,
{
}

/// In which formats high entropy is expected: archives, images, sound, video,
/// packaged documents and fonts, by their extension or by their first bytes, and
/// in nothing else.
pub proof fn law_where_high_entropy_is_expected(data: Seq<u8>, ext: Seq<char>)
    ensures
        high_entropy_expected(data, ext) <==> ({
            ||| ext == "zip"@
            ||| ext == "gz"@
            ||| ext == "tgz"@
            ||| ext == "bz2"@
            ||| ext == "xz"@
            ||| ext == "7z"@
            ||| ext == "rar"@
            ||| ext == "jpg"@
            ||| ext == "jpeg"@
            ||| ext == "png"@
            ||| ext == "gif"@
            ||| ext == "webp"@
            ||| ext == "mp3"@
            ||| ext == "mp4"@
            ||| ext == "avi"@
            ||| ext == "mkv"@
            ||| ext == "mov"@
            ||| ext == "docx"@
            ||| ext == "xlsx"@
            ||| ext == "pptx"@
            ||| ext == "jar"@
            ||| ext == "apk"@
            ||| ext == "pdf"@
            ||| ext == "woff"@
            ||| ext == "woff2"@
            ||| sequences::begins_with(data, seq![0x50u8, 0x4B, 0x03, 0x04])
            ||| sequences::begins_with(data, seq![0x1Fu8, 0x8B])
            ||| sequences::begins_with(data, seq![0xFFu8, 0xD8, 0xFF])
            ||| sequences::begins_with(data, seq![0x89u8, 0x50, 0x4E, 0x47])
            ||| sequences::begins_with(data, seq![0x52u8, 0x61, 0x72, 0x21])
            ||| sequences::begins_with(data, seq![0x37u8, 0x7A, 0xBC, 0xAF, 0x27, 0x1C])
            ||| sequences::begins_with(data, seq![0x25u8, 0x50, 0x44, 0x46])
        }),
{
    let list = COMPRESSED_EXTENSIONS@;
    let heads = COMPRESSED_HEADERS@;
    assert(list.len() == 25 && heads.len() == 7);
    assert(list[0]@ == "zip"@);
    assert(list[1]@ == "gz"@);
    assert(list[2]@ == "tgz"@);
    assert(list[3]@ == "bz2"@);
    assert(list[4]@ == "xz"@);
    assert(list[5]@ == "7z"@);
    assert(list[6]@ == "rar"@);
    assert(list[7]@ == "jpg"@);
    assert(list[8]@ == "jpeg"@);
    assert(list[9]@ == "png"@);
    assert(list[10]@ == "gif"@);
    assert(list[11]@ == "webp"@);
    assert(list[12]@ == "mp3"@);
    assert(list[13]@ == "mp4"@);
    assert(list[14]@ == "avi"@);
    assert(list[15]@ == "mkv"@);
    assert(list[16]@ == "mov"@);
    assert(list[17]@ == "docx"@);
    assert(list[18]@ == "xlsx"@);
    assert(list[19]@ == "pptx"@);
    assert(list[20]@ == "jar"@);
    assert(list[21]@ == "apk"@);
    assert(list[22]@ == "pdf"@);
    assert(list[23]@ == "woff"@);
    assert(list[24]@ == "woff2"@);
    reveal_strlit("PK\u{3}\u{4}");
    reveal_strlit("\u{1F}\u{8B}");
    reveal_strlit("\u{FF}\u{D8}\u{FF}");
    reveal_strlit("\u{89}PNG");
    reveal_strlit("Rar!");
    reveal_strlit("7z\u{BC}\u{AF}\u{27}\u{1C}");
    reveal_strlit("%PDF");
    assert(bytes::pattern(heads[0]@) =~= seq![0x50u8, 0x4B, 0x03, 0x04]);
    assert(bytes::pattern(heads[1]@) =~= seq![0x1Fu8, 0x8B]);
    assert(bytes::pattern(heads[2]@) =~= seq![0xFFu8, 0xD8, 0xFF]);
    assert(bytes::pattern(heads[3]@) =~= seq![0x89u8, 0x50, 0x4E, 0x47]);
    assert(bytes::pattern(heads[4]@) =~= seq![0x52u8, 0x61, 0x72, 0x21]);
    assert(bytes::pattern(heads[5]@) =~= seq![0x37u8, 0x7A, 0xBC, 0xAF, 0x27, 0x1C]);
    assert(bytes::pattern(heads[6]@) =~= seq![0x25u8, 0x50, 0x44, 0x46]);
}

/// Which extensions promise plain text.
pub proof fn law_which_files_should_be_text(ext: Seq<char>)
    ensures
        text::one_of(ext, TEXT_EXTENSIONS@) <==> ({
            ||| ext == "txt"@
            ||| ext == "csv"@
            ||| ext == "log"@
            ||| ext == "md"@
            ||| ext == "json"@
            ||| ext == "xml"@
            ||| ext == "html"@
            ||| ext == "htm"@
            ||| ext == "css"@
            ||| ext == "js"@
            ||| ext == "ts"@
            ||| ext == "py"@
            ||| ext == "rs"@
            ||| ext == "c"@
            ||| ext == "h"@
            ||| ext == "cpp"@
            ||| ext == "java"@
            ||| ext == "sh"@
            ||| ext == "bat"@
            ||| ext == "ps1"@
            ||| ext == "yml"@
            ||| ext == "yaml"@
            ||| ext == "ini"@
            ||| ext == "cfg"@
        }),
{
    let list = TEXT_EXTENSIONS@;
    assert(list.len() == 24);
    assert(list[0]@ == "txt"@);
    assert(list[1]@ == "csv"@);
    assert(list[2]@ == "log"@);
    assert(list[3]@ == "md"@);
    assert(list[4]@ == "json"@);
    assert(list[5]@ == "xml"@);
    assert(list[6]@ == "html"@);
    assert(list[7]@ == "htm"@);
    assert(list[8]@ == "css"@);
    assert(list[9]@ == "js"@);
    assert(list[10]@ == "ts"@);
    assert(list[11]@ == "py"@);
    assert(list[12]@ == "rs"@);
    assert(list[13]@ == "c"@);
    assert(list[14]@ == "h"@);
    assert(list[15]@ == "cpp"@);
    assert(list[16]@ == "java"@);
    assert(list[17]@ == "sh"@);
    assert(list[18]@ == "bat"@);
    assert(list[19]@ == "ps1"@);
    assert(list[20]@ == "yml"@);
    assert(list[21]@ == "yaml"@);
    assert(list[22]@ == "ini"@);
    assert(list[23]@ == "cfg"@);
}

/// A file that should be text and is not shows it, whatever its content starts
/// with: above six and a half bits for a byte it is no text at all, above five
/// and a half it is odd, and up to that it is in order.
pub proof fn law_text_is_not_random(
    data: Seq<u8>,
    ext: Seq<char>,
    overall: u64,
    measured: Seq<u64>,
)
    requires
        text::one_of(ext, TEXT_EXTENSIONS@),
    ensures
        conclusion(data, ext, overall, measured).risk == if overall > 6_500_000_000 {
            7_000int
        } else if overall > 5_500_000_000 {
            3_500
        } else {
            0
        },
        conclusion(data, ext, overall, measured).flagged <==> overall > 5_500_000_000,
        conclusion(data, ext, overall, measured).flags.len() == if overall > 5_500_000_000 {
            1int
        } else {
            0
        },
{
}

/// A file in which high entropy is not expected, and that is no text, is called
/// packed above seven bits and a fifth. Where it is ordinary as a whole, one
/// window above seven and a half bits gives a hidden payload away.
pub proof fn law_packed_and_hidden_content_is_reported(
    data: Seq<u8>,
    ext: Seq<char>,
    overall: u64,
    measured: Seq<u64>,
)
    requires
        !text::one_of(ext, TEXT_EXTENSIONS@),
        !high_entropy_expected(data, ext),
    ensures
        ({
            let r = conclusion(data, ext, overall, measured);
            let hidden = overall < 6_500_000_000 && data.len() > 8_192 && exists|i: int|
                0 <= i < measured.len() && #[trigger] measured[i] > 7_500_000_000;
            &&& overall > 7_200_000_000 ==> r.risk == 5_000
            &&& hidden ==> r.risk == 4_500
            &&& overall <= 7_200_000_000 && !hidden ==> r.risk == 0
            &&& r.flagged <==> overall > 7_200_000_000 || hidden
            &&& r.flags.len() == if overall > 7_200_000_000 || hidden {
                1int
            } else {
                0
            }
        }),
{
    if exists|i: int| 0 <= i < measured.len() && #[trigger] measured[i] > 7_500_000_000 {
        let i = choose|i: int| 0 <= i < measured.len() && #[trigger] measured[i] > 7_500_000_000;
        law_reported_window_is_the_highest(measured, i);
    } else if measured.len() > 0 {
        law_reported_window_is_the_highest(measured, 0);
    }
}

/// What was measured is reported as it was, with the place of the highest
/// window.
pub proof fn law_measurements_are_reported(
    data: Seq<u8>,
    ext: Seq<char>,
    overall: u64,
    measured: Seq<u64>,
    i: int,
)
    requires
        0 <= i < measured.len(),
        measured[i] > 0,
        forall|j: int| 0 <= j < measured.len() ==> #[trigger] measured[j] <= measured[i],
        forall|j: int| 0 <= j < i ==> #[trigger] measured[j] < measured[i],
    ensures
        conclusion(data, ext, overall, measured).overall == overall,
        conclusion(data, ext, overall, measured).max_window == measured[i],
        conclusion(data, ext, overall, measured).max_window_offset == 2_048 * i,
{
    lemma_peak(measured, i);
}

proof fn lemma_peak(list: Seq<u64>, i: int)
    requires
        0 <= i < list.len(),
        list[i] > 0,
        forall|j: int| 0 <= j < list.len() ==> #[trigger] list[j] <= list[i],
        forall|j: int| 0 <= j < i ==> #[trigger] list[j] < list[i],
    ensures
        peak(list) == (list[i], i),
    decreases list.len(),
{
    let shorter = list.drop_last();
    if i < list.len() - 1 {
        assert forall|j: int| 0 <= j < shorter.len() implies #[trigger] shorter[j]
            <= shorter[i] by {
            assert(list[j] <= list[i]);
        }
        assert forall|j: int| 0 <= j < i implies #[trigger] shorter[j] < shorter[i] by {
            assert(list[j] < list[i]);
        }
        lemma_peak(shorter, i);
        assert(list.last() == list[list.len() - 1]);
    } else if shorter.len() > 0 {
        law_reported_window_is_the_highest(shorter, 0);
        if peak(shorter).0 > 0 {
            assert(shorter[peak(shorter).1] == list[peak(shorter).1]);
        }
    } else {
        assert(peak(shorter).0 == 0);
    }
}

/// Windows are four kilobytes wide and start two apart, so that what lies on the
/// border of one lies within the next. The last ends with the file, and none is
/// too small for an estimate.
pub proof fn law_windows_overlap_by_half(len: nat, k: int)
    requires
        0 <= k < window_count(len),
    ensures
        window_start(k) == 2_048 * k,
        k < window_count(len) - 1 ==> window_end(len, k) == window_start(k) + 4_096,
        k == window_count(len) - 1 ==> window_end(len, k) == len,
        1_024 <= window_end(len, k) - window_start(k) <= 4_096,
{
}

/// A file is measured in windows as soon as it has a kilobyte.
pub proof fn law_small_files_have_no_window(len: nat)
    ensures
        window_count(len) == 0 <==> len < 1_024,
{
}

/// The count of a byte is how often it stands in the data, wherever that is.
pub proof fn law_counts_count_every_byte(data: Seq<u8>, b: u8)
    ensures
        occurrences(data, b) == data.to_multiset().count(b),
    decreases data.len(),
{
    broadcast use vstd::seq_lib::group_to_multiset_ensures;

    if data.len() > 0 {
        law_counts_count_every_byte(data.drop_last(), b);
        assert(data =~= data.drop_last().push(data.last()));
    }
}

} // verus!
