//! Intent: references to suspicious functions, tools and commands.
//!
//! Runs on every span of a download, with the tail of the span before it, so
//! that a pattern split across a boundary is still found. The patterns fall
//! into two classes. Ordinary software mentions function and tool names all the
//! time, so however many of those match, they amount to no more than
//! `MAX_INDICATIVE_RISK`. A literal attack command is conclusive by itself.
use crate::bytes;
use crate::bytes::pattern_bytes;
use crate::numbers;
use crate::numbers::{push_risk, RISK_ONE};
use crate::sequences;
use crate::text;
use crate::text::{chars_of, string_of};
use vstd::prelude::*;

verus! {

/// Result from scanning one span.
#[derive(Debug)]
pub struct IntentResult {
    /// Whether any pattern was found.
    pub flagged: bool,
    /// The patterns found, described.
    pub flags: Vec<String>,
    /// Risk contribution from this scan.
    pub risk: i64,
}

/// What a result says.
pub struct IntentModel {
    pub flagged: bool,
    pub flags: Seq<Seq<char>>,
    pub risk: int,
}

impl View for IntentResult {
    type V = IntentModel;

    open spec fn view(&self) -> IntentModel {
        IntentModel {
            flagged: self.flagged,
            flags: text::texts(self.flags@),
            risk: self.risk as int,
        }
    }
}

/// Ceiling on the risk from indicative patterns, however many of them match.
/// It lies below the score at which a file is held.
pub const MAX_INDICATIVE_RISK: i64 = 3_500;

/// Whether a pattern is conclusive by itself.
#[derive(Debug, Clone, Copy, PartialEq, Eq, Structural)]
pub enum Weight {
    /// A literal attack command. It keeps its full risk.
    Decisive,
    /// A function name, tool name or path. It adds up to
    /// `MAX_INDICATIVE_RISK` with others and no further.
    Indicative,
}

/// What is looked for: the pattern, its risk, its weight, and what it is.
pub const RED_FLAGS: [(&'static str, i64, Weight, &'static str); 32] = [
    ("CreateRemoteThread", 6_000, Weight::Indicative, "Process injection via remote thread"),
    ("VirtualAllocEx", 5_000, Weight::Indicative, "Remote memory allocation — injection precursor"),
    ("WriteProcessMemory", 5_000, Weight::Indicative, "Remote memory write — injection precursor"),
    ("SetWindowsHookEx", 5_500, Weight::Indicative, "Keylogger / global hook installation"),
    ("RegSetValue", 3_000, Weight::Indicative, "Registry write — possible persistence"),
    ("RegCreateKey", 2_500, Weight::Indicative, "Registry key creation — possible persistence"),
    ("InternetOpenA", 4_000, Weight::Indicative, "C2 call-home (WININET)"),
    ("InternetOpenW", 4_000, Weight::Indicative, "C2 call-home (WININET)"),
    ("URLDownloadToFile", 5_500, Weight::Indicative, "Downloads additional payload"),
    ("ShellExecuteA", 3_500, Weight::Indicative, "Shell execution — dropper behavior"),
    ("ShellExecuteW", 3_500, Weight::Indicative, "Shell execution — dropper behavior"),
    ("CreateService", 5_000, Weight::Indicative, "Service installation — persistence"),
    ("OpenSCManager", 4_500, Weight::Indicative, "Service control manager access"),
    ("IsDebuggerPresent", 3_500, Weight::Indicative, "Anti-debug / sandbox evasion"),
    ("CheckRemoteDebuggerPresent", 4_000, Weight::Indicative, "Anti-debug / sandbox evasion"),
    (
        "NtQueryInformationProcess",
        4_000,
        Weight::Indicative,
        "Anti-debug / sandbox evasion via NtAPI",
    ),
    ("powershell", 3_500, Weight::Indicative, "PowerShell invocation in binary"),
    ("cmd.exe", 3_000, Weight::Indicative, "CMD shell invocation in binary"),
    ("wscript.exe", 4_500, Weight::Indicative, "WScript invocation — script dropper"),
    ("mshta.exe", 5_000, Weight::Indicative, "MSHTA execution — LOLBin abuse"),
    ("certutil", 4_500, Weight::Indicative, "Certutil — LOLBin, often used to decode payloads"),
    ("bitsadmin", 4_500, Weight::Indicative, "BITS job creation — payload download / persistence"),
    ("/etc/passwd", 5_500, Weight::Indicative, "Passwd file access"),
    ("chmod 777", 4_000, Weight::Indicative, "World-writable permission set"),
    (
        "HKEY_CURRENT_USER\\Software\\Microsoft\\Windows\\CurrentVersion\\Run",
        7_000,
        Weight::Decisive,
        "Autorun registry key — persistence",
    ),
    ("/etc/shadow", 7_000, Weight::Decisive, "Shadow file access — credential theft"),
    ("curl | bash", 7_000, Weight::Decisive, "Pipe-to-bash — remote code execution pattern"),
    ("wget -O- |", 6_500, Weight::Decisive, "Pipe-to-shell — remote code execution pattern"),
    ("nc -e /bin/sh", 8_000, Weight::Decisive, "Netcat reverse shell"),
    ("nc -e /bin/bash", 8_000, Weight::Decisive, "Netcat reverse shell"),
    ("/dev/tcp/", 7_000, Weight::Decisive, "Bash TCP socket — reverse shell pattern"),
    (
        "EICAR-STANDARD-ANTIVIRUS-TEST-FILE",
        10_000,
        Weight::Decisive,
        "EICAR Antivirus Test File signature",
    ),
];

// ---------------------------------------------------------------------------
// Two encodings
// ---------------------------------------------------------------------------

/// The character that two bytes hold as UTF-16, low byte first, where it is
/// printable ASCII; otherwise a character that no pattern contains.
pub open spec fn wide_char(low: u8, high: u8) -> char {
    if high == 0 && 0x20 <= low <= 0x7E {
        low as char
    } else {
        '\0'
    }
}

/// The ASCII text that bytes hold as UTF-16 from index `align` on.
pub open spec fn wide_text(data: Seq<u8>, align: int) -> Seq<char> {
    if data.len() <= align {
        Seq::empty()
    } else {
        Seq::new(
            ((data.len() - align) / 2) as nat,
            |i: int| wide_char(data[align + 2 * i], data[align + 2 * i + 1]),
        )
    }
}

/// The encoding in which a pattern stands in the data.
pub open spec fn encoding(data: Seq<u8>, pat: Seq<char>) -> Option<Seq<char>> {
    if sequences::occurs(data, bytes::pattern(pat)) {
        Some("utf-8"@)
    } else if sequences::occurs(wide_text(data, 0), pat) || sequences::occurs(
        wide_text(data, 1),
        pat,
    ) {
        Some("utf-16le"@)
    } else {
        None
    }
}

/// Extracts ASCII text stored as UTF-16, from index `align` on.
pub fn utf16le_ascii_view(data: &[u8], align: usize) -> (r: String)
    ensures
        r@ == wide_text(data@, align as int),
{
    let n: usize = data.len();
    let mut out: Vec<char> = Vec::new();
    if n <= align {
        return String::new();
    }
    let count: usize = (n - align) / 2;
    let mut i: usize = 0;
    while i < count
        invariant
            n == data@.len(),
            align < n,
            count == (n - align) / 2,
            i <= count,
            out@.len() == i,
            forall|j: int|
                0 <= j < i ==> #[trigger] out@[j] == wide_char(
                    data@[align + 2 * j],
                    data@[align + 2 * j + 1],
                ),
        decreases count - i,
    {
        let low: u8 = data[align + 2 * i];
        let high: u8 = data[align + 2 * i + 1];
        if high == 0 && 0x20 <= low && low <= 0x7E {
            out.push(low as char);
        } else {
            out.push('\0');
        }
        i += 1;
    }
    assert(out@ =~= wide_text(data@, align as int));
    string_of(out.as_slice())
}

// ---------------------------------------------------------------------------
// Matches
// ---------------------------------------------------------------------------

/// How a match of row `k` is described.
pub open spec fn flag_text(k: int, encoding: Seq<char>) -> Seq<char> {
    let row = RED_FLAGS@[k];
    "[risk="@ + numbers::risk_text(row.1 as int) + "] "@ + row.0@ + " ("@ + encoding + "): "@
        + row.3@
}

/// The descriptions of the matches among the first `n` rows.
pub open spec fn flag_texts(data: Seq<u8>, n: nat) -> Seq<Seq<char>>
    decreases n,
{
    if n == 0 {
        Seq::empty()
    } else {
        let before = flag_texts(data, (n - 1) as nat);
        match encoding(data, RED_FLAGS@[n - 1].0@) {
            Some(enc) => before.push(flag_text(n - 1, enc)),
            None => before,
        }
    }
}

/// Row `k` stands in the data.
pub open spec fn hit(data: Seq<u8>, k: int) -> bool {
    encoding(data, RED_FLAGS@[k].0@) is Some
}

/// The risks of the indicative matches among the first `n` rows, added up to
/// the ceiling.
pub open spec fn indicative_risk(data: Seq<u8>, n: nat) -> int
    decreases n,
{
    if n == 0 {
        0
    } else {
        let before = indicative_risk(data, (n - 1) as nat);
        let row = RED_FLAGS@[n - 1];
        if !hit(data, n - 1) || row.2 != Weight::Indicative {
            before
        } else if before + row.1 < MAX_INDICATIVE_RISK {
            before + row.1
        } else {
            MAX_INDICATIVE_RISK as int
        }
    }
}

/// The greatest risk of a decisive match among the first `n` rows.
pub open spec fn decisive_risk(data: Seq<u8>, n: nat) -> int
    decreases n,
{
    if n == 0 {
        0
    } else {
        let before = decisive_risk(data, (n - 1) as nat);
        let row = RED_FLAGS@[n - 1];
        if hit(data, n - 1) && row.2 == Weight::Decisive && row.1 > before {
            row.1 as int
        } else {
            before
        }
    }
}

/// The risk of a row is a risk.
proof fn lemma_row_risk(k: int)
    requires
        0 <= k < RED_FLAGS@.len(),
    ensures
        0 <= RED_FLAGS@[k].1 <= RISK_ONE,
{
}

/// The stronger of the two classes, not their sum.
pub open spec fn intent_risk(data: Seq<u8>) -> int {
    let indicative = indicative_risk(data, RED_FLAGS@.len());
    let decisive = decisive_risk(data, RED_FLAGS@.len());
    if indicative < decisive {
        decisive
    } else {
        indicative
    }
}

/// What scanning some data gives.
pub open spec fn intent(data: Seq<u8>) -> IntentModel {
    IntentModel {
        flagged: flag_texts(data, RED_FLAGS@.len()).len() > 0,
        flags: flag_texts(data, RED_FLAGS@.len()),
        risk: intent_risk(data),
    }
}

/// A span with what came before it.
pub open spec fn with_context(data: Seq<u8>, context_prefix: Option<Seq<u8>>) -> Seq<u8> {
    match context_prefix {
        Some(prefix) => prefix + data,
        None => data,
    }
}

/// The bytes of an optional slice.
pub open spec fn slice_view(s: Option<&[u8]>) -> Option<Seq<u8>> {
    match s {
        Some(t) => Some(t@),
        None => None,
    }
}

/// The encoding in which a pattern stands in the data, of which `even` and
/// `odd` are the wide texts.
fn find_encoding(data: &[u8], even: &[char], odd: &[char], pat: &str) -> (r: Option<&'static str>)
    requires
        even@ == wide_text(data@, 0),
        odd@ == wide_text(data@, 1),
    ensures
        r is None <==> encoding(data@, pat@) is None,
        r matches Some(enc) ==> encoding(data@, pat@) == Some(enc@),
{
    let narrow = pattern_bytes(pat);
    if sequences::contains(data, narrow.as_slice()) {
        return Some("utf-8");
    }
    let chars = chars_of(pat);
    if sequences::contains(even, chars.as_slice()) || sequences::contains(odd, chars.as_slice()) {
        return Some("utf-16le");
    }
    None
}

/// Scans data for the patterns.
pub fn scan(data: &[u8]) -> (r: IntentResult)
    ensures
        r@ == intent(data@),
{
    broadcast use text::lemma_texts_push;

    let even = chars_of(utf16le_ascii_view(data, 0).as_str());
    let odd = chars_of(utf16le_ascii_view(data, 1).as_str());
    let mut flags: Vec<String> = Vec::new();
    let mut indicative: i64 = 0;
    let mut decisive: i64 = 0;
    assert(text::texts(flags@) =~= flag_texts(data@, 0));
    let mut k: usize = 0;
    while k < RED_FLAGS.len()
        invariant
            k <= RED_FLAGS@.len(),
            even@ == wide_text(data@, 0),
            odd@ == wide_text(data@, 1),
            text::texts(flags@) == flag_texts(data@, k as nat),
            indicative == indicative_risk(data@, k as nat),
            0 <= indicative <= MAX_INDICATIVE_RISK,
            decisive == decisive_risk(data@, k as nat),
        decreases RED_FLAGS@.len() - k,
    {
        if let Some(enc) = find_encoding(
            data,
            even.as_slice(),
            odd.as_slice(),
            RED_FLAGS[k].0,
        ) {
            let mut f: String = "[risk=".to_string();
            push_risk(&mut f, RED_FLAGS[k].1);
            f.append("] ");
            f.append(RED_FLAGS[k].0);
            f.append(" (");
            f.append(enc);
            f.append("): ");
            f.append(RED_FLAGS[k].3);
            flags.push(f);
            let risk: i64 = RED_FLAGS[k].1;
            proof {
                lemma_row_risk(k as int);
            }
            match RED_FLAGS[k].2 {
                Weight::Indicative => {
                    if risk < MAX_INDICATIVE_RISK - indicative {
                        indicative = indicative + risk;
                    } else {
                        indicative = MAX_INDICATIVE_RISK;
                    }
                },
                Weight::Decisive => {
                    if risk > decisive {
                        decisive = risk;
                    }
                },
            }
        }
        k += 1;
    }
    assert(text::texts(flags@).len() == flags@.len());
    let risk: i64 = if indicative < decisive {
        decisive
    } else {
        indicative
    };
    IntentResult { flagged: flags.len() > 0, flags, risk }
}

/// Scans a span, and optionally what came before it, for dangerous intent.
pub fn detect_dangerous_intent(data: &[u8], context_prefix: Option<&[u8]>) -> (r: IntentResult)
    ensures
        r@ == intent(with_context(data@, slice_view(context_prefix))),
{
    match context_prefix {
        Some(prefix) => {
            let mut both: Vec<u8> = Vec::new();
            both.extend_from_slice(prefix);
            both.extend_from_slice(data);
            assert(both@ =~= prefix@ + data@);
            scan(both.as_slice())
        },
        None => scan(data),
    }
}

// ---------------------------------------------------------------------------
// Laws
// ---------------------------------------------------------------------------

proof fn lemma_indicative_range(data: Seq<u8>, n: nat)
    requires
        n <= RED_FLAGS@.len(),
    ensures
        0 <= indicative_risk(data, n) <= MAX_INDICATIVE_RISK,
    decreases n,
{
    if n > 0 {
        lemma_indicative_range(data, (n - 1) as nat);
        lemma_row_risk(n - 1);
    }
}

proof fn lemma_decisive_range(data: Seq<u8>, n: nat)
    requires
        n <= RED_FLAGS@.len(),
    ensures
        0 <= decisive_risk(data, n) <= RISK_ONE,
    decreases n,
{
    if n > 0 {
        lemma_decisive_range(data, (n - 1) as nat);
        lemma_row_risk(n - 1);
    }
}

proof fn lemma_decisive_bound(data: Seq<u8>, n: nat, k: int)
    requires
        0 <= k < n <= RED_FLAGS@.len(),
        hit(data, k),
        RED_FLAGS@[k].2 == Weight::Decisive,
    ensures
        RED_FLAGS@[k].1 <= decisive_risk(data, n),
    decreases n,
{
    if k < n - 1 {
        lemma_decisive_bound(data, (n - 1) as nat, k);
    }
}

proof fn lemma_no_decisive(data: Seq<u8>, n: nat)
    requires
        n <= RED_FLAGS@.len(),
        forall|k: int|
            0 <= k < n && #[trigger] hit(data, k) ==> RED_FLAGS@[k].2 == Weight::Indicative,
    ensures
        decisive_risk(data, n) == 0,
    decreases n,
{
    if n > 0 {
        lemma_no_decisive(data, (n - 1) as nat);
    }
}

proof fn lemma_flags_of_hits(data: Seq<u8>, n: nat)
    requires
        n <= RED_FLAGS@.len(),
        forall|k: int| 0 <= k < n ==> !#[trigger] hit(data, k),
    ensures
        flag_texts(data, n).len() == 0,
        indicative_risk(data, n) == 0,
        decisive_risk(data, n) == 0,
    decreases n,
{
    if n > 0 {
        assert(!hit(data, n - 1));
        lemma_flags_of_hits(data, (n - 1) as nat);
    }
}

/// The risk of a scan is a risk.
pub proof fn law_intent_risk_is_bounded(data: Seq<u8>)
    ensures
        0 <= intent(data).risk <= RISK_ONE,
{
    lemma_indicative_range(data, RED_FLAGS@.len());
    lemma_decisive_range(data, RED_FLAGS@.len());
}

/// However many names of ordinary functions, tools and paths match, they
/// amount to no more than `MAX_INDICATIVE_RISK`.
pub proof fn law_indicative_patterns_are_capped(data: Seq<u8>)
    requires
        forall|k: int|
            0 <= k < RED_FLAGS@.len() && #[trigger] hit(data, k) ==> RED_FLAGS@[k].2
                == Weight::Indicative,
    ensures
        intent(data).risk <= MAX_INDICATIVE_RISK,
{
    lemma_indicative_range(data, RED_FLAGS@.len());
    lemma_no_decisive(data, RED_FLAGS@.len());
}

/// A literal attack command keeps its full weight.
pub proof fn law_decisive_patterns_keep_their_weight(data: Seq<u8>, k: int)
    requires
        0 <= k < RED_FLAGS@.len(),
        hit(data, k),
        RED_FLAGS@[k].2 == Weight::Decisive,
    ensures
        RED_FLAGS@[k].1 <= intent(data).risk,
{
    lemma_decisive_bound(data, RED_FLAGS@.len(), k);
}

/// The two classes do not compound: a scan amounts to what the stronger class
/// alone amounts to.
pub proof fn law_classes_do_not_compound(data: Seq<u8>)
    ensures
        intent(data).risk == indicative_risk(data, RED_FLAGS@.len()) || intent(data).risk
            == decisive_risk(data, RED_FLAGS@.len()),
        intent(data).risk >= indicative_risk(data, RED_FLAGS@.len()),
        intent(data).risk >= decisive_risk(data, RED_FLAGS@.len()),
{
}

/// Data in which no pattern stands is clean.
pub proof fn law_clean_data_is_not_flagged(data: Seq<u8>)
    requires
        forall|k: int| 0 <= k < RED_FLAGS@.len() ==> !#[trigger] hit(data, k),
    ensures
        !intent(data).flagged,
        intent(data).risk == 0,
{
    lemma_flags_of_hits(data, RED_FLAGS@.len());
}

/// A byte pattern that a boundary splits.
proof fn lemma_split_bytes(first: Seq<u8>, second: Seq<u8>, pat: Seq<u8>, kept: int)
    requires
        0 <= kept <= first.len(),
        kept == first.len() || pat.len() <= kept + 1,
        sequences::occurs(first + second, pat),
    ensures
        sequences::occurs(first, pat) || sequences::occurs(
            first.skip(first.len() - kept) + second,
            pat,
        ),
{
    let whole = first + second;
    let i = choose|i: int| sequences::occurs_at(whole, pat, i);
    let from = first.len() - kept;
    if i + pat.len() <= first.len() {
        assert(first.subrange(i, i + pat.len()) =~= whole.subrange(i, i + pat.len()));
        assert(sequences::occurs_at(first, pat, i));
    } else {
        let part = first.skip(from) + second;
        assert(i >= from);
        assert(part.subrange(i - from, i - from + pat.len()) =~= whole.subrange(i, i + pat.len()));
        assert(sequences::occurs_at(part, pat, i - from));
    }
}

/// A pattern stands in the data as UTF-16, from byte `p` on.
spec fn wide_at(data: Seq<u8>, pat: Seq<char>, p: int) -> bool {
    &&& 0 <= p
    &&& p + 2 * pat.len() <= data.len()
    &&& forall|j: int|
        0 <= j < pat.len() ==> wide_char(data[p + 2 * j], data[p + 2 * j + 1]) == #[trigger] pat[j]
}

/// Where a pattern of a wide text stands in the bytes.
proof fn lemma_wide_position(data: Seq<u8>, pat: Seq<char>, align: int) -> (p: int)
    requires
        0 <= align <= 1,
        pat.len() > 0,
        sequences::occurs(wide_text(data, align), pat),
    ensures
        wide_at(data, pat, p),
{
    let wide = wide_text(data, align);
    let i = choose|i: int| sequences::occurs_at(wide, pat, i);
    assert forall|j: int| 0 <= j < pat.len() implies wide_char(
        data[align + 2 * i + 2 * j],
        data[align + 2 * i + 2 * j + 1],
    ) == #[trigger] pat[j] by {
        assert(wide.subrange(i, i + pat.len())[j] == pat[j]);
        assert(align + 2 * (i + j) == align + 2 * i + 2 * j);
    }
    align + 2 * i
}

/// A pattern that stands in the bytes stands in one of the two wide texts.
proof fn lemma_wide_occurs(data: Seq<u8>, pat: Seq<char>, p: int)
    requires
        pat.len() > 0,
        wide_at(data, pat, p),
    ensures
        sequences::occurs(wide_text(data, 0), pat) || sequences::occurs(wide_text(data, 1), pat),
{
    let align = p % 2;
    let i = p / 2;
    let wide = wide_text(data, align);
    assert(i + pat.len() <= wide.len());
    assert forall|j: int| 0 <= j < pat.len() implies wide.subrange(i, i + pat.len())[j]
        == #[trigger] pat[j] by {
        assert(align + 2 * (i + j) == p + 2 * j);
    }
    assert(wide.subrange(i, i + pat.len()) =~= pat);
    assert(sequences::occurs_at(wide, pat, i));
}

/// A wide pattern that a boundary splits.
proof fn lemma_split_wide(first: Seq<u8>, second: Seq<u8>, pat: Seq<char>, kept: int, p: int)
    requires
        0 <= kept <= first.len(),
        kept == first.len() || 2 * pat.len() <= kept + 1,
        wide_at(first + second, pat, p),
    ensures
        wide_at(first, pat, p) || wide_at(
            first.skip(first.len() - kept) + second,
            pat,
            p - (first.len() - kept),
        ),
{
    let whole = first + second;
    let from = first.len() - kept;
    if p + 2 * pat.len() <= first.len() {
        assert forall|j: int| 0 <= j < pat.len() implies wide_char(
            first[p + 2 * j],
            first[p + 2 * j + 1],
        ) == #[trigger] pat[j] by {
            assert(whole[p + 2 * j] == first[p + 2 * j]);
            assert(whole[p + 2 * j + 1] == first[p + 2 * j + 1]);
        }
    } else {
        let part = first.skip(from) + second;
        assert forall|j: int| 0 <= j < pat.len() implies wide_char(
            part[p - from + 2 * j],
            part[p - from + 2 * j + 1],
        ) == #[trigger] pat[j] by {
            assert(whole[p + 2 * j] == part[p - from + 2 * j]);
            assert(whole[p + 2 * j + 1] == part[p - from + 2 * j + 1]);
        }
    }
}

/// No pattern has more characters.
pub const LONGEST_PATTERN: usize = 64;

/// The patterns are short.
proof fn lemma_patterns_are_short(k: int)
    requires
        0 <= k < RED_FLAGS@.len(),
    ensures
        0 < RED_FLAGS@[k].0@.len() <= LONGEST_PATTERN,
{
    reveal_strlit("CreateRemoteThread");
    reveal_strlit("VirtualAllocEx");
    reveal_strlit("WriteProcessMemory");
    reveal_strlit("SetWindowsHookEx");
    reveal_strlit("RegSetValue");
    reveal_strlit("RegCreateKey");
    reveal_strlit("InternetOpenA");
    reveal_strlit("InternetOpenW");
    reveal_strlit("URLDownloadToFile");
    reveal_strlit("ShellExecuteA");
    reveal_strlit("ShellExecuteW");
    reveal_strlit("CreateService");
    reveal_strlit("OpenSCManager");
    reveal_strlit("IsDebuggerPresent");
    reveal_strlit("CheckRemoteDebuggerPresent");
    reveal_strlit("NtQueryInformationProcess");
    reveal_strlit("powershell");
    reveal_strlit("cmd.exe");
    reveal_strlit("wscript.exe");
    reveal_strlit("mshta.exe");
    reveal_strlit("certutil");
    reveal_strlit("bitsadmin");
    reveal_strlit("/etc/passwd");
    reveal_strlit("chmod 777");
    reveal_strlit("HKEY_CURRENT_USER\\Software\\Microsoft\\Windows\\CurrentVersion\\Run");
    reveal_strlit("/etc/shadow");
    reveal_strlit("curl | bash");
    reveal_strlit("wget -O- |");
    reveal_strlit("nc -e /bin/sh");
    reveal_strlit("nc -e /bin/bash");
    reveal_strlit("/dev/tcp/");
    reveal_strlit("EICAR-STANDARD-ANTIVIRUS-TEST-FILE");
}

/// A pattern that a boundary splits is found all the same, in either encoding:
/// where it stands in two spans together, it stands in the first, or in the
/// second with so much of the first before it as the longest pattern takes as
/// UTF-16.
pub proof fn law_a_split_pattern_is_found(first: Seq<u8>, second: Seq<u8>, k: int, kept: int)
    requires
        0 <= k < RED_FLAGS@.len(),
        0 <= kept <= first.len(),
        kept == first.len() || kept >= 2 * LONGEST_PATTERN,
        hit(first + second, k),
    ensures
        hit(first, k) || hit(first.skip(first.len() - kept) + second, k),
{
    let pat = RED_FLAGS@[k].0@;
    let whole = first + second;
    let part = first.skip(first.len() - kept) + second;
    lemma_patterns_are_short(k);
    if sequences::occurs(whole, bytes::pattern(pat)) {
        lemma_split_bytes(first, second, bytes::pattern(pat), kept);
    } else {
        let p = if sequences::occurs(wide_text(whole, 0), pat) {
            lemma_wide_position(whole, pat, 0)
        } else {
            lemma_wide_position(whole, pat, 1)
        };
        lemma_split_wide(first, second, pat, kept, p);
        if wide_at(first, pat, p) {
            lemma_wide_occurs(first, pat, p);
        } else {
            lemma_wide_occurs(part, pat, p - (first.len() - kept));
        }
    }
}

/// A pattern that stands in some data stands in all data of which that is a
/// part.
pub proof fn law_a_pattern_stands_in_more_data(
    before: Seq<u8>,
    data: Seq<u8>,
    after: Seq<u8>,
    k: int,
)
    requires
        0 <= k < RED_FLAGS@.len(),
        hit(data, k),
    ensures
        hit(before + data + after, k),
{
    let pat = RED_FLAGS@[k].0@;
    let whole = before + data + after;
    lemma_patterns_are_short(k);
    if sequences::occurs(data, bytes::pattern(pat)) {
        let narrow = bytes::pattern(pat);
        let i = choose|i: int| sequences::occurs_at(data, narrow, i);
        assert(whole.subrange(before.len() + i, before.len() + i + narrow.len())
            =~= data.subrange(i, i + narrow.len()));
        assert(sequences::occurs_at(whole, narrow, before.len() + i));
    } else {
        let p = if sequences::occurs(wide_text(data, 0), pat) {
            lemma_wide_position(data, pat, 0)
        } else {
            lemma_wide_position(data, pat, 1)
        };
        assert forall|j: int| 0 <= j < pat.len() implies wide_char(
            whole[before.len() + p + 2 * j],
            whole[before.len() + p + 2 * j + 1],
        ) == #[trigger] pat[j] by {
            assert(whole[before.len() + p + 2 * j] == data[p + 2 * j]);
            assert(whole[before.len() + p + 2 * j + 1] == data[p + 2 * j + 1]);
        }
        lemma_wide_occurs(whole, pat, before.len() + p);
    }
}

/// A hit raises the flag.
proof fn lemma_hit_is_flagged(data: Seq<u8>, n: nat, k: int)
    requires
        0 <= k < n <= RED_FLAGS@.len(),
        hit(data, k),
    ensures
        flag_texts(data, n).len() > 0,
    decreases n,
{
    if k < n - 1 {
        lemma_hit_is_flagged(data, (n - 1) as nat, k);
    }
}

/// Data in which a pattern stands is flagged.
pub proof fn law_a_pattern_is_flagged(data: Seq<u8>, k: int)
    requires
        0 <= k < RED_FLAGS@.len(),
        hit(data, k),
    ensures
        intent(data).flagged,
{
    lemma_hit_is_flagged(data, RED_FLAGS@.len(), k);
}

/// Fragments that other bytes separate are not spliced: a pattern that is found
/// in a wide text stands in the bytes without a gap, each character in its low
/// byte with a zero behind it.
pub proof fn law_wide_fragments_are_not_spliced(data: Seq<u8>, align: int, pat: Seq<char>) -> (p:
    int)
    requires
        0 <= align <= 1,
        pat.len() > 0,
        !pat.contains('\0'),
        sequences::occurs(wide_text(data, align), pat),
    ensures
        0 <= p,
        p + 2 * pat.len() <= data.len(),
        forall|j: int|
            0 <= j < pat.len() ==> #[trigger] pat[j] == data[p + 2 * j] as char && data[p + 2 * j
                + 1] == 0,
{
    let p = lemma_wide_position(data, pat, align);
    assert forall|j: int| 0 <= j < pat.len() implies #[trigger] pat[j] == data[p + 2 * j] as char
        && data[p + 2 * j + 1] == 0 by {
        assert(wide_char(data[p + 2 * j], data[p + 2 * j + 1]) == pat[j]);
        assert(pat.contains(pat[j]));
    }
    p
}

/// A pattern takes bytes: it does not stand in fewer than it has characters.
pub proof fn law_a_pattern_takes_bytes(data: Seq<u8>, k: int)
    requires
        0 <= k < RED_FLAGS@.len(),
        data.len() < RED_FLAGS@[k].0@.len() || data.len() == 0,
    ensures
        !hit(data, k),
{
    lemma_patterns_are_short(k);
}

/// Data is flagged exactly where a pattern stands in it.
pub proof fn law_flagged_means_a_pattern(data: Seq<u8>)
    ensures
        intent(data).flagged <==> exists|k: int| 0 <= k < RED_FLAGS@.len() && #[trigger] hit(data, k),
{
    if exists|k: int| 0 <= k < RED_FLAGS@.len() && #[trigger] hit(data, k) {
        let k = choose|k: int| 0 <= k < RED_FLAGS@.len() && #[trigger] hit(data, k);
        law_a_pattern_is_flagged(data, k);
    } else {
        law_clean_data_is_not_flagged(data);
    }
}

proof fn lemma_indicative_grows(data: Seq<u8>, n: nat, k: int)
    requires
        0 <= k < n <= RED_FLAGS@.len(),
        hit(data, k),
        RED_FLAGS@[k].2 == Weight::Indicative,
    ensures
        indicative_risk(data, n) >= vstd::math::min(
            MAX_INDICATIVE_RISK as int,
            indicative_risk(data, k as nat) + RED_FLAGS@[k].1,
        ),
    decreases n,
{
    if k < n - 1 {
        lemma_indicative_grows(data, (n - 1) as nat, k);
        lemma_row_risk(n - 1);
        lemma_indicative_range(data, (n - 1) as nat);
    }
}

/// Names add up: two that stand in the data amount to the sum of their risks,
/// up to the ceiling.
pub proof fn law_names_add_up_to_the_ceiling(data: Seq<u8>, j: int, k: int)
    requires
        0 <= j < k < RED_FLAGS@.len(),
        hit(data, j),
        hit(data, k),
        RED_FLAGS@[j].2 == Weight::Indicative,
        RED_FLAGS@[k].2 == Weight::Indicative,
    ensures
        intent(data).risk >= vstd::math::min(3_500, RED_FLAGS@[j].1 + RED_FLAGS@[k].1),
{
    lemma_indicative_grows(data, k as nat, j);
    lemma_indicative_grows(data, RED_FLAGS@.len(), k);
    lemma_indicative_range(data, j as nat);
    lemma_indicative_range(data, k as nat);
}

proof fn lemma_decisive_source(data: Seq<u8>, n: nat)
    requires
        n <= RED_FLAGS@.len(),
        decisive_risk(data, n) > 0,
    ensures
        exists|k: int|
            0 <= k < n && #[trigger] hit(data, k) && RED_FLAGS@[k].2 == Weight::Decisive
                && RED_FLAGS@[k].1 == decisive_risk(data, n),
    decreases n,
{
    let row = RED_FLAGS@[n - 1];
    if hit(data, n - 1) && row.2 == Weight::Decisive && row.1 > decisive_risk(
        data,
        (n - 1) as nat,
    ) {
        assert(hit(data, n - 1));
    } else {
        lemma_decisive_source(data, (n - 1) as nat);
        let k = choose|k: int|
            0 <= k < n - 1 && #[trigger] hit(data, k) && RED_FLAGS@[k].2 == Weight::Decisive
                && RED_FLAGS@[k].1 == decisive_risk(data, (n - 1) as nat);
        assert(hit(data, k));
    }
}

/// No more than one attack command counts: a risk above the ceiling of names is
/// exactly that of a command that stands in the data.
pub proof fn law_a_risk_above_the_ceiling_is_that_of_a_command(data: Seq<u8>)
    requires
        intent(data).risk > 3_500,
    ensures
        exists|k: int|
            0 <= k < RED_FLAGS@.len() && #[trigger] hit(data, k) && RED_FLAGS@[k].2
                == Weight::Decisive && RED_FLAGS@[k].1 == intent(data).risk,
{
    lemma_indicative_range(data, RED_FLAGS@.len());
    lemma_decisive_source(data, RED_FLAGS@.len());
}

/// A pattern stands in the data from byte `at` on: as plain text, or as text of
/// two bytes a character, the second of which is zero.
pub open spec fn spelled_at(data: Seq<u8>, pat: Seq<char>, at: int) -> bool {
    ||| 0 <= at && at + pat.len() <= data.len() && forall|j: int|
        0 <= j < pat.len() ==> data[at + j] as char == #[trigger] pat[j]
    ||| 0 <= at && at + 2 * pat.len() <= data.len() && forall|j: int|
        0 <= j < pat.len() ==> data[at + 2 * j] as char == #[trigger] pat[j] && data[at + 2 * j + 1]
            == 0
}

/// The characters of the patterns are printable.
proof fn lemma_patterns_are_printable(k: int)
    requires
        0 <= k < RED_FLAGS@.len(),
    ensures
        forall|j: int| 0 <= j < RED_FLAGS@[k].0@.len() ==> ' ' <= #[trigger] RED_FLAGS@[k].0@[j] <= '~',
{
    reveal_strlit("CreateRemoteThread");
    reveal_strlit("VirtualAllocEx");
    reveal_strlit("WriteProcessMemory");
    reveal_strlit("SetWindowsHookEx");
    reveal_strlit("RegSetValue");
    reveal_strlit("RegCreateKey");
    reveal_strlit("InternetOpenA");
    reveal_strlit("InternetOpenW");
    reveal_strlit("URLDownloadToFile");
    reveal_strlit("ShellExecuteA");
    reveal_strlit("ShellExecuteW");
    reveal_strlit("CreateService");
    reveal_strlit("OpenSCManager");
    reveal_strlit("IsDebuggerPresent");
    reveal_strlit("CheckRemoteDebuggerPresent");
    reveal_strlit("NtQueryInformationProcess");
    reveal_strlit("powershell");
    reveal_strlit("cmd.exe");
    reveal_strlit("wscript.exe");
    reveal_strlit("mshta.exe");
    reveal_strlit("certutil");
    reveal_strlit("bitsadmin");
    reveal_strlit("/etc/passwd");
    reveal_strlit("chmod 777");
    reveal_strlit("HKEY_CURRENT_USER\\Software\\Microsoft\\Windows\\CurrentVersion\\Run");
    reveal_strlit("/etc/shadow");
    reveal_strlit("curl | bash");
    reveal_strlit("wget -O- |");
    reveal_strlit("nc -e /bin/sh");
    reveal_strlit("nc -e /bin/bash");
    reveal_strlit("/dev/tcp/");
    reveal_strlit("EICAR-STANDARD-ANTIVIRUS-TEST-FILE");
}

/// A pattern that is spelled in the data is found.
pub proof fn law_a_spelled_pattern_is_found(data: Seq<u8>, k: int, at: int)
    requires
        0 <= k < RED_FLAGS@.len(),
        spelled_at(data, RED_FLAGS@[k].0@, at),
    ensures
        hit(data, k),
{
    let pat = RED_FLAGS@[k].0@;
    lemma_patterns_are_short(k);
    lemma_patterns_are_printable(k);
    if at + pat.len() <= data.len() && forall|j: int|
        0 <= j < pat.len() ==> data[at + j] as char == #[trigger] pat[j] {
        let narrow = bytes::pattern(pat);
        assert forall|j: int| 0 <= j < pat.len() implies data.subrange(at, at + pat.len())[j]
            == narrow[j] by {
            assert(data[at + j] as char == pat[j]);
        }
        assert(data.subrange(at, at + narrow.len()) =~= narrow);
        assert(sequences::occurs_at(data, narrow, at));
    } else {
        assert forall|j: int| 0 <= j < pat.len() implies wide_char(
            data[at + 2 * j],
            data[at + 2 * j + 1],
        ) == #[trigger] pat[j] by {}
        lemma_wide_occurs(data, pat, at);
    }
}

/// And a pattern that is found is spelled in the data.
pub proof fn law_a_found_pattern_is_spelled(data: Seq<u8>, k: int) -> (at: int)
    requires
        0 <= k < RED_FLAGS@.len(),
        hit(data, k),
    ensures
        spelled_at(data, RED_FLAGS@[k].0@, at),
{
    let pat = RED_FLAGS@[k].0@;
    lemma_patterns_are_short(k);
    lemma_patterns_are_printable(k);
    if sequences::occurs(data, bytes::pattern(pat)) {
        let narrow = bytes::pattern(pat);
        let i = choose|i: int| sequences::occurs_at(data, narrow, i);
        assert forall|j: int| 0 <= j < pat.len() implies data[i + j] as char
            == #[trigger] pat[j] by {
            assert(data.subrange(i, i + narrow.len())[j] == narrow[j]);
        }
        i
    } else {
        let align = if sequences::occurs(wide_text(data, 0), pat) {
            0int
        } else {
            1
        };
        let p = lemma_wide_position(data, pat, align);
        assert forall|j: int| 0 <= j < pat.len() implies data[p + 2 * j] as char
            == #[trigger] pat[j] && data[p + 2 * j + 1] == 0 by {
            assert(wide_char(data[p + 2 * j], data[p + 2 * j + 1]) == pat[j]);
        }
        p
    }
}

/// The row of each pattern that is looked for.
proof fn lemma_row_of(pat: Seq<char>, worth: int) -> (k: int)
    requires
        ({
            ||| pat == "CreateRemoteThread"@ && worth == 3_500
            ||| pat == "VirtualAllocEx"@ && worth == 3_500
            ||| pat == "WriteProcessMemory"@ && worth == 3_500
            ||| pat == "SetWindowsHookEx"@ && worth == 3_500
            ||| pat == "RegSetValue"@ && worth == 3_000
            ||| pat == "RegCreateKey"@ && worth == 2_500
            ||| pat == "InternetOpenA"@ && worth == 3_500
            ||| pat == "InternetOpenW"@ && worth == 3_500
            ||| pat == "URLDownloadToFile"@ && worth == 3_500
            ||| pat == "ShellExecuteA"@ && worth == 3_500
            ||| pat == "ShellExecuteW"@ && worth == 3_500
            ||| pat == "CreateService"@ && worth == 3_500
            ||| pat == "OpenSCManager"@ && worth == 3_500
            ||| pat == "IsDebuggerPresent"@ && worth == 3_500
            ||| pat == "CheckRemoteDebuggerPresent"@ && worth == 3_500
            ||| pat == "NtQueryInformationProcess"@ && worth == 3_500
            ||| pat == "powershell"@ && worth == 3_500
            ||| pat == "cmd.exe"@ && worth == 3_000
            ||| pat == "wscript.exe"@ && worth == 3_500
            ||| pat == "mshta.exe"@ && worth == 3_500
            ||| pat == "certutil"@ && worth == 3_500
            ||| pat == "bitsadmin"@ && worth == 3_500
            ||| pat == "/etc/passwd"@ && worth == 3_500
            ||| pat == "chmod 777"@ && worth == 3_500
            ||| pat == "HKEY_CURRENT_USER\\Software\\Microsoft\\Windows\\CurrentVersion\\Run"@ && worth == 7_000
            ||| pat == "/etc/shadow"@ && worth == 7_000
            ||| pat == "curl | bash"@ && worth == 7_000
            ||| pat == "wget -O- |"@ && worth == 6_500
            ||| pat == "nc -e /bin/sh"@ && worth == 8_000
            ||| pat == "nc -e /bin/bash"@ && worth == 8_000
            ||| pat == "/dev/tcp/"@ && worth == 7_000
            ||| pat == "EICAR-STANDARD-ANTIVIRUS-TEST-FILE"@ && worth == 10_000
        }),
    ensures
        0 <= k < RED_FLAGS@.len(),
        RED_FLAGS@[k].0@ == pat,
        RED_FLAGS@[k].2 == Weight::Decisive ==> RED_FLAGS@[k].1 == worth,
        RED_FLAGS@[k].2 == Weight::Indicative ==> worth == vstd::math::min(
            3_500,
            RED_FLAGS@[k].1 as int,
        ),
{
    assert(RED_FLAGS@.len() == 32);
    if pat == "CreateRemoteThread"@ && worth == 3_500 {
        0
    } else if pat == "VirtualAllocEx"@ && worth == 3_500 {
        1
    } else if pat == "WriteProcessMemory"@ && worth == 3_500 {
        2
    } else if pat == "SetWindowsHookEx"@ && worth == 3_500 {
        3
    } else if pat == "RegSetValue"@ && worth == 3_000 {
        4
    } else if pat == "RegCreateKey"@ && worth == 2_500 {
        5
    } else if pat == "InternetOpenA"@ && worth == 3_500 {
        6
    } else if pat == "InternetOpenW"@ && worth == 3_500 {
        7
    } else if pat == "URLDownloadToFile"@ && worth == 3_500 {
        8
    } else if pat == "ShellExecuteA"@ && worth == 3_500 {
        9
    } else if pat == "ShellExecuteW"@ && worth == 3_500 {
        10
    } else if pat == "CreateService"@ && worth == 3_500 {
        11
    } else if pat == "OpenSCManager"@ && worth == 3_500 {
        12
    } else if pat == "IsDebuggerPresent"@ && worth == 3_500 {
        13
    } else if pat == "CheckRemoteDebuggerPresent"@ && worth == 3_500 {
        14
    } else if pat == "NtQueryInformationProcess"@ && worth == 3_500 {
        15
    } else if pat == "powershell"@ && worth == 3_500 {
        16
    } else if pat == "cmd.exe"@ && worth == 3_000 {
        17
    } else if pat == "wscript.exe"@ && worth == 3_500 {
        18
    } else if pat == "mshta.exe"@ && worth == 3_500 {
        19
    } else if pat == "certutil"@ && worth == 3_500 {
        20
    } else if pat == "bitsadmin"@ && worth == 3_500 {
        21
    } else if pat == "/etc/passwd"@ && worth == 3_500 {
        22
    } else if pat == "chmod 777"@ && worth == 3_500 {
        23
    } else if pat == "HKEY_CURRENT_USER\\Software\\Microsoft\\Windows\\CurrentVersion\\Run"@ && worth == 7_000 {
        24
    } else if pat == "/etc/shadow"@ && worth == 7_000 {
        25
    } else if pat == "curl | bash"@ && worth == 7_000 {
        26
    } else if pat == "wget -O- |"@ && worth == 6_500 {
        27
    } else if pat == "nc -e /bin/sh"@ && worth == 8_000 {
        28
    } else if pat == "nc -e /bin/bash"@ && worth == 8_000 {
        29
    } else if pat == "/dev/tcp/"@ && worth == 7_000 {
        30
    } else {
        31
    }
}

/// A scan finds what it is for: an attack command, or the name of a function, a
/// tool or a path that attacks use, is flagged in either encoding wherever it
/// stands, is named in what the scan says, and counts at least as much as it is
/// worth alone.
pub proof fn law_what_is_looked_for_is_found(
    data: Seq<u8>,
    pat: Seq<char>,
    worth: int,
    at: int,
)
    requires
        ({
            ||| pat == "CreateRemoteThread"@ && worth == 3_500
            ||| pat == "VirtualAllocEx"@ && worth == 3_500
            ||| pat == "WriteProcessMemory"@ && worth == 3_500
            ||| pat == "SetWindowsHookEx"@ && worth == 3_500
            ||| pat == "RegSetValue"@ && worth == 3_000
            ||| pat == "RegCreateKey"@ && worth == 2_500
            ||| pat == "InternetOpenA"@ && worth == 3_500
            ||| pat == "InternetOpenW"@ && worth == 3_500
            ||| pat == "URLDownloadToFile"@ && worth == 3_500
            ||| pat == "ShellExecuteA"@ && worth == 3_500
            ||| pat == "ShellExecuteW"@ && worth == 3_500
            ||| pat == "CreateService"@ && worth == 3_500
            ||| pat == "OpenSCManager"@ && worth == 3_500
            ||| pat == "IsDebuggerPresent"@ && worth == 3_500
            ||| pat == "CheckRemoteDebuggerPresent"@ && worth == 3_500
            ||| pat == "NtQueryInformationProcess"@ && worth == 3_500
            ||| pat == "powershell"@ && worth == 3_500
            ||| pat == "cmd.exe"@ && worth == 3_000
            ||| pat == "wscript.exe"@ && worth == 3_500
            ||| pat == "mshta.exe"@ && worth == 3_500
            ||| pat == "certutil"@ && worth == 3_500
            ||| pat == "bitsadmin"@ && worth == 3_500
            ||| pat == "/etc/passwd"@ && worth == 3_500
            ||| pat == "chmod 777"@ && worth == 3_500
            ||| pat == "HKEY_CURRENT_USER\\Software\\Microsoft\\Windows\\CurrentVersion\\Run"@ && worth == 7_000
            ||| pat == "/etc/shadow"@ && worth == 7_000
            ||| pat == "curl | bash"@ && worth == 7_000
            ||| pat == "wget -O- |"@ && worth == 6_500
            ||| pat == "nc -e /bin/sh"@ && worth == 8_000
            ||| pat == "nc -e /bin/bash"@ && worth == 8_000
            ||| pat == "/dev/tcp/"@ && worth == 7_000
            ||| pat == "EICAR-STANDARD-ANTIVIRUS-TEST-FILE"@ && worth == 10_000
        }),
        spelled_at(data, pat, at),
    ensures
        intent(data).flagged,
        intent(data).risk >= worth,
        exists|i: int|
            0 <= i < intent(data).flags.len() && sequences::occurs(
                #[trigger] intent(data).flags[i],
                pat,
            ),
{
    let k = lemma_row_of(pat, worth);
    let n = RED_FLAGS@.len();
    law_a_spelled_pattern_is_found(data, k, at);
    law_a_pattern_is_flagged(data, k);
    lemma_flag_is_listed(data, n, k);
    let all = flag_texts(data, n);
    let i = choose|i: int| 0 <= i < all.len() && sequences::occurs(#[trigger] all[i], pat);
    assert(intent(data).flags[i] == all[i]);
    if RED_FLAGS@[k].2 == Weight::Decisive {
        law_decisive_patterns_keep_their_weight(data, k);
    } else {
        lemma_indicative_grows(data, n, k);
        lemma_indicative_range(data, k as nat);
    }
}

/// What a match is described with names the pattern.
proof fn lemma_flag_names_the_pattern(k: int, enc: Seq<char>)
    ensures
        sequences::occurs(flag_text(k, enc), RED_FLAGS@[k].0@),
{
    let row = RED_FLAGS@[k];
    let lead = "[risk="@ + numbers::risk_text(row.1 as int) + "] "@;
    let t = flag_text(k, enc);
    assert(t.subrange(lead.len() as int, (lead.len() + row.0@.len()) as int) =~= row.0@);
    assert(sequences::occurs_at(t, row.0@, lead.len() as int));
}

/// Every match is described.
proof fn lemma_flag_is_listed(data: Seq<u8>, n: nat, k: int)
    requires
        0 <= k < n <= RED_FLAGS@.len(),
        hit(data, k),
    ensures
        exists|i: int|
            0 <= i < flag_texts(data, n).len() && sequences::occurs(
                #[trigger] flag_texts(data, n)[i],
                RED_FLAGS@[k].0@,
            ),
    decreases n,
{
    let all = flag_texts(data, n);
    let before = flag_texts(data, (n - 1) as nat);
    if k == n - 1 {
        let enc = encoding(data, RED_FLAGS@[k].0@)->0;
        lemma_flag_names_the_pattern(k, enc);
        assert(all[before.len() as int] == flag_text(k, enc));
    } else {
        lemma_flag_is_listed(data, (n - 1) as nat, k);
        let i = choose|i: int|
            0 <= i < before.len() && sequences::occurs(#[trigger] before[i], RED_FLAGS@[k].0@);
        assert(all[i] == before[i]);
    }
}

/// No pattern is empty, and none is longer than sixty-four characters.
pub proof fn law_patterns_are_short(k: int)
    requires
        0 <= k < RED_FLAGS@.len(),
    ensures
        0 < RED_FLAGS@[k].0@.len() <= 64,
{
    lemma_patterns_are_short(k);
}

} // verus!
