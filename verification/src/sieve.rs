//! A simple scanner: it looks at the head of a file, at a handful of
//! function names, and at how a process ends. Each check gives the lines that
//! it reports.
use crate::sequences;
use crate::text;
use crate::text::{claimed_extension_of, contains, from_utf8_lossy, same};
use vstd::prelude::*;

verus! {

/// What a file is by its first four bytes.
pub open spec fn head_kind(data: Seq<u8>) -> Seq<char> {
    if data[0] == 0x4D && data[1] == 0x5A {
        "exe"@
    } else if data.take(4) == seq![0x25u8, 0x50, 0x44, 0x46] {
        "pdf"@
    } else if data.take(4) == seq![0x50u8, 0x4B, 0x03, 0x04] {
        "zip"@
    } else {
        "unknown"@
    }
}

/// The line on a file of this kind under this extension.
pub open spec fn check_line(kind: Seq<char>, ext: Seq<char>) -> Seq<char> {
    if kind == "exe"@ && ext != "exe"@ {
        "[Scanner] 🚨 ALERT: TROJAN DETECTED! Executable masquerading as ."@ + ext
    } else if kind == "zip"@ && ext != "zip"@ && ext != "docx"@ && ext != "xlsx"@ {
        "[Scanner] ⚠️ WARNING: Hidden Archive detected inside ."@ + ext
    } else if kind == "unknown"@ && (ext == "txt"@ || ext == "csv"@) {
        "[Scanner] ℹ️ Note: Non-text bytes found in a text-based format."@
    } else if kind == ext {
        "[Scanner] ✅ File identity verified."@
    } else {
        "[Scanner] Static analysis complete. No major mismatches."@
    }
}

/// The lines on a file with this head and this name.
pub open spec fn scan_lines(data: Seq<u8>, filename: Seq<char>) -> Seq<Seq<char>> {
    if data.len() < 4 {
        seq!["[Scanner] Chunk too small for identity verification."@]
    } else {
        let ext = text::claimed_extension(filename);
        seq![
            "[Scanner] Checking: "@ + filename + " (Detected: "@ + head_kind(data)
                + ", Claimed: "@ + ext + ")"@,
            check_line(head_kind(data), ext),
        ]
    }
}

/// What a file is by its first four bytes.
fn kind_of(data: &[u8]) -> (r: &'static str)
    requires
        data@.len() >= 4,
    ensures
        r@ == head_kind(data@),
{
    if data[0] == 0x4D && data[1] == 0x5A {
        return "exe";
    }
    let ghost head = data@.take(4);
    if data[0] == 0x25 && data[1] == 0x50 && data[2] == 0x44 && data[3] == 0x46 {
        assert(head =~= seq![0x25u8, 0x50, 0x44, 0x46]);
        return "pdf";
    }
    assert(head != seq![0x25u8, 0x50, 0x44, 0x46]) by {
        let other = seq![0x25u8, 0x50, 0x44, 0x46];
        assert(head[0] != other[0] || head[1] != other[1] || head[2] != other[2] || head[3]
            != other[3]);
    }
    if data[0] == 0x50 && data[1] == 0x4B && data[2] == 0x03 && data[3] == 0x04 {
        assert(head =~= seq![0x50u8, 0x4B, 0x03, 0x04]);
        return "zip";
    }
    assert(head != seq![0x50u8, 0x4B, 0x03, 0x04]) by {
        let other = seq![0x50u8, 0x4B, 0x03, 0x04];
        assert(head[0] != other[0] || head[1] != other[1] || head[2] != other[2] || head[3]
            != other[3]);
    }
    "unknown"
}

/// The line on a file of this kind under this extension.
pub fn perform_security_check(real_type: &str, claimed_ext: &str) -> (r: String)
    ensures
        r@ == check_line(real_type@, claimed_ext@),
{
    if same(real_type, "exe") && !same(claimed_ext, "exe") {
        let mut line: String =
            "[Scanner] 🚨 ALERT: TROJAN DETECTED! Executable masquerading as .".to_string();
        line.append(claimed_ext);
        line
    } else if same(real_type, "zip") && !same(claimed_ext, "zip") && !same(claimed_ext, "docx")
        && !same(claimed_ext, "xlsx") {
        let mut line: String = "[Scanner] ⚠️ WARNING: Hidden Archive detected inside .".to_string();
        line.append(claimed_ext);
        line
    } else if same(real_type, "unknown") && (same(claimed_ext, "txt") || same(claimed_ext, "csv")) {
        "[Scanner] ℹ️ Note: Non-text bytes found in a text-based format.".to_string()
    } else if same(real_type, claimed_ext) {
        "[Scanner] ✅ File identity verified.".to_string()
    } else {
        "[Scanner] Static analysis complete. No major mismatches.".to_string()
    }
}

/// Holds the head of a file against its name.
pub fn scan_file(data: &[u8], filename: &str) -> (r: Vec<String>)
    ensures
        text::texts(r@) == scan_lines(data@, filename@),
{
    let mut lines: Vec<String> = Vec::new();
    if data.len() < 4 {
        lines.push("[Scanner] Chunk too small for identity verification.".to_string());
        assert(text::texts(lines@) =~= scan_lines(data@, filename@));
        return lines;
    }
    let kind = kind_of(data);
    let ext = claimed_extension_of(filename);
    let mut line: String = "[Scanner] Checking: ".to_string();
    line.append(filename);
    line.append(" (Detected: ");
    line.append(kind);
    line.append(", Claimed: ");
    line.append(ext.as_str());
    line.append(")");
    lines.push(line);
    lines.push(perform_security_check(kind, ext.as_str()));
    assert(text::texts(lines@) =~= scan_lines(data@, filename@));
    lines
}

/// The function names that are looked for.
pub const RED_FLAGS: [&'static str; 4] = [
    "CreateRemoteThread", "SetWindowsHookEx", "RegSetValue", "InternetOpen",
];

/// The lines on the first `n` function names: two for each that stands in the
/// text.
pub open spec fn flag_lines(content: Seq<char>, n: nat) -> Seq<Seq<char>>
    decreases n,
{
    if n == 0 {
        Seq::empty()
    } else {
        let before = flag_lines(content, (n - 1) as nat);
        if sequences::occurs(content, RED_FLAGS@[n - 1]@) {
            before.push(
                "[Scanner] 🚩 CRITICAL: Found dangerous API reference: "@ + RED_FLAGS@[n - 1]@,
            ).push("[Scanner] Potential behavioral threat detected in current chunk."@)
        } else {
            before
        }
    }
}

/// The lines on the function names in a text.
pub fn intent_lines(content: &str) -> (r: Vec<String>)
    ensures
        text::texts(r@) == flag_lines(content@, RED_FLAGS@.len()),
{
    broadcast use text::lemma_texts_push;

    let mut lines: Vec<String> = Vec::new();
    assert(text::texts(lines@) =~= Seq::<Seq<char>>::empty());
    let mut i: usize = 0;
    while i < RED_FLAGS.len()
        invariant
            i <= RED_FLAGS@.len(),
            text::texts(lines@) == flag_lines(content@, i as nat),
        decreases RED_FLAGS@.len() - i,
    {
        if contains(content, RED_FLAGS[i]) {
            let mut line: String =
                "[Scanner] 🚩 CRITICAL: Found dangerous API reference: ".to_string();
            line.append(RED_FLAGS[i]);
            lines.push(line);
            lines.push("[Scanner] Potential behavioral threat detected in current chunk.".to_string());
        }
        i += 1;
    }
    lines
}

/// The lines on the function names in a chunk of a file.
pub fn detect_dangerous_intent(data: &[u8]) -> (r: Vec<String>)
    ensures
        text::texts(r@) == flag_lines(text::utf8_lossy(data@), RED_FLAGS@.len()),
{
    let content = from_utf8_lossy(data);
    intent_lines(content.as_str())
}

/// The exit code of a process that still runs.
pub const STILL_ACTIVE: u32 = 259;

/// What a process adds to the score when it is looked at: it is suspicious
/// that it has ended.
pub fn check_process_vitals(exit_code: u32) -> (r: Option<i32>)
    ensures
        r == if exit_code != STILL_ACTIVE {
            Some(5i32)
        } else {
            None
        },
{
    if exit_code != STILL_ACTIVE {
        Some(5)
    } else {
        None
    }
}

/// The score of a process that was looked at so many times.
pub open spec fn vitals_score(exit_codes: Seq<u32>) -> int
    decreases exit_codes.len(),
{
    if exit_codes.len() == 0 {
        0
    } else {
        vitals_score(exit_codes.drop_last()) + if exit_codes.last() != STILL_ACTIVE {
            5int
        } else {
            0
        }
    }
}

/// A process that scores more than this is a threat.
pub const THREAT_SCORE: i32 = 10;

/// How often a process is looked at.
pub const LOOKS: usize = 5;

/// Whether a process is a threat, by its exit codes each time it was looked
/// at.
pub fn behavioral_threat(exit_codes: &[u32]) -> (r: bool)
    requires
        exit_codes@.len() <= LOOKS,
    ensures
        r == (vitals_score(exit_codes@) > THREAT_SCORE),
{
    let mut score: i32 = 0;
    let mut i: usize = 0;
    assert(exit_codes@.take(0) =~= Seq::<u32>::empty());
    while i < exit_codes.len()
        invariant
            i <= exit_codes@.len() <= LOOKS,
            score == vitals_score(exit_codes@.take(i as int)),
            0 <= score <= 5 * i,
        decreases exit_codes@.len() - i,
    {
        assert(exit_codes@.take(i + 1).drop_last() =~= exit_codes@.take(i as int));
        if let Some(more) = check_process_vitals(exit_codes[i]) {
            score += more;
        }
        i += 1;
    }
    assert(exit_codes@.take(exit_codes@.len() as int) =~= exit_codes@);
    score > THREAT_SCORE
}

/// The key of the cipher.
pub const XOR_KEY: u8 = 0xAC;

/// Some bytes under the cipher.
pub open spec fn ciphered(data: Seq<u8>) -> Seq<u8> {
    data.map_values(|b: u8| b ^ XOR_KEY)
}

/// Puts some bytes under the cipher.
pub fn xor_buffer(data: &mut Vec<u8>)
    ensures
        final(data)@ == ciphered(old(data)@),
{
    let ghost before = data@;
    let n: usize = data.len();
    let mut i: usize = 0;
    while i < n
        invariant
            n == data@.len() == before.len(),
            i <= n,
            forall|j: int| 0 <= j < i ==> #[trigger] data@[j] == before[j] ^ XOR_KEY,
            forall|j: int| i <= j < n ==> #[trigger] data@[j] == before[j],
        decreases n - i,
    {
        let b: u8 = data[i];
        data.set(i, b ^ XOR_KEY);
        i += 1;
    }
    assert(data@ =~= ciphered(before));
}

/// The status and the verdict that are answered.
pub open spec fn answer_text(malicious: bool, failure: Option<Seq<char>>) -> (Seq<char>, Seq<char>) {
    if malicious {
        ("BLOCKED"@, "Critical: File identity mismatch or malicious intent detected."@)
    } else {
        match failure {
            None => ("COMPLETE"@, "File analyzed and verified clean."@),
            Some(words) => ("ERROR"@, "Sandbox execution failed: "@ + words),
        }
    }
}

/// The status and the verdict that are answered: a file that the scanner
/// flagged is blocked, whatever the sandbox says.
pub fn answer(malicious: bool, failure: &Option<String>) -> (r: (String, String))
    ensures
        (r.0@, r.1@) == answer_text(malicious, text::text_of(*failure)),
{
    if malicious {
        return (
            "BLOCKED".to_string(),
            "Critical: File identity mismatch or malicious intent detected.".to_string(),
        );
    }
    match failure {
        None => ("COMPLETE".to_string(), "File analyzed and verified clean.".to_string()),
        Some(words) => {
            let mut verdict: String = "Sandbox execution failed: ".to_string();
            verdict.append(words.as_str());
            ("ERROR".to_string(), verdict)
        },
    }
}

// ---------------------------------------------------------------------------
// Laws
// ---------------------------------------------------------------------------

/// The cipher undoes itself.
pub proof fn law_the_cipher_undoes_itself(data: Seq<u8>)
    ensures
        ciphered(ciphered(data)) == data,
{
    assert forall|i: int| 0 <= i < data.len() implies ciphered(ciphered(data))[i] == data[i] by {
        let b = data[i];
        assert((b ^ 0xAC) ^ 0xAC == b) by (bit_vector);
    }
    assert(ciphered(ciphered(data)) =~= data);
}

/// A program under any other extension raises the alarm.
pub proof fn law_a_disguised_program_raises_the_alarm(data: Seq<u8>, filename: Seq<char>)
    requires
        data.len() >= 4,
        data[0] == 0x4D,
        data[1] == 0x5A,
        text::claimed_extension(filename) != "exe"@,
    ensures
        scan_lines(data, filename).last()
            == "[Scanner] 🚨 ALERT: TROJAN DETECTED! Executable masquerading as ."@
            + text::claimed_extension(filename),
{
}

/// The first bytes tell what a file is: a program by its first two, a document
/// or an archive by its first four.
pub proof fn law_the_head_tells_the_kind(data: Seq<u8>)
    requires
        data.len() >= 4,
    ensures
        data[0] == 0x4D && data[1] == 0x5A ==> head_kind(data) == "exe"@,
        data[0] == 0x25 && data[1] == 0x50 && data[2] == 0x44 && data[3] == 0x46 ==> head_kind(data)
            == "pdf"@,
        data[0] == 0x50 && data[1] == 0x4B && data[2] == 0x03 && data[3] == 0x04 ==> head_kind(data)
            == "zip"@,
        data[0] != 0x4D && data[0] != 0x25 && data[0] != 0x50 ==> head_kind(data) == "unknown"@,
{
    let head = data.take(4);
    let pdf = seq![0x25u8, 0x50, 0x44, 0x46];
    let zip = seq![0x50u8, 0x4B, 0x03, 0x04];
    if data[0] == 0x25 && data[1] == 0x50 && data[2] == 0x44 && data[3] == 0x46 {
        assert(head =~= pdf);
    }
    if data[0] == 0x50 && data[1] == 0x4B && data[2] == 0x03 && data[3] == 0x04 {
        assert(head =~= zip);
        assert(head[0] != pdf[0]);
    }
    assert(head[0] == data[0]);
    assert(head == pdf ==> data[0] == pdf[0]);
    assert(head == zip ==> data[0] == zip[0]);
}

/// A hidden archive is warned of under any extension but those of archives and
/// the two kinds of documents that are built on them; a kind under its own
/// extension is verified.
pub proof fn law_which_kinds_are_in_order(ext: Seq<char>)
    ensures
        ext != "zip"@ && ext != "docx"@ && ext != "xlsx"@ ==> check_line("zip"@, ext)
            == "[Scanner] ⚠️ WARNING: Hidden Archive detected inside ."@ + ext,
        check_line("exe"@, "exe"@) == "[Scanner] ✅ File identity verified."@,
        check_line("zip"@, "zip"@) == "[Scanner] ✅ File identity verified."@,
        check_line("pdf"@, "pdf"@) == "[Scanner] ✅ File identity verified."@,
        ext == "txt"@ || ext == "csv"@ ==> check_line("unknown"@, ext)
            == "[Scanner] ℹ️ Note: Non-text bytes found in a text-based format."@,
{
    reveal_strlit("exe");
    reveal_strlit("zip");
    reveal_strlit("pdf");
    reveal_strlit("unknown");
    reveal_strlit("txt");
    reveal_strlit("csv");
    assert("zip"@[0] != "exe"@[0] && "pdf"@[0] != "exe"@[0] && "pdf"@[0] != "zip"@[0]);
    assert("unknown"@.len() != "exe"@.len());
    assert("exe"@[0] != "zip"@[0]);
}

/// A chunk that is too small to tell anything of gives one line, any other two.
pub proof fn law_every_chunk_is_answered(data: Seq<u8>, filename: Seq<char>)
    ensures
        scan_lines(data, filename).len() == if data.len() < 4 {
            1int
        } else {
            2
        },
        data.len() >= 4 ==> scan_lines(data, filename)[1] == check_line(
            head_kind(data),
            text::claimed_extension(filename),
        ),
{
}

proof fn lemma_flag_line(content: Seq<char>, n: nat, k: int)
    requires
        0 <= k < n <= RED_FLAGS@.len(),
        sequences::occurs(content, RED_FLAGS@[k]@),
    ensures
        flag_lines(content, n).contains(
            "[Scanner] 🚩 CRITICAL: Found dangerous API reference: "@ + RED_FLAGS@[k]@,
        ),
    decreases n,
{
    let line = "[Scanner] 🚩 CRITICAL: Found dangerous API reference: "@ + RED_FLAGS@[k]@;
    let before = flag_lines(content, (n - 1) as nat);
    let all = flag_lines(content, n);
    if k == n - 1 {
        assert(all[before.len() as int] == line);
    } else {
        lemma_flag_line(content, (n - 1) as nat, k);
        let i = choose|i: int| 0 <= i < before.len() && before[i] == line;
        assert(all[i] == line);
    }
}

proof fn lemma_no_flag_line(content: Seq<char>, n: nat)
    requires
        n <= RED_FLAGS@.len(),
        forall|k: int|
            0 <= k < RED_FLAGS@.len() ==> !sequences::occurs(content, (#[trigger] RED_FLAGS@[k])@),
    ensures
        flag_lines(content, n).len() == 0,
    decreases n,
{
    if n > 0 {
        lemma_no_flag_line(content, (n - 1) as nat);
        assert(!sequences::occurs(content, RED_FLAGS@[n - 1]@));
    }
}

/// Each of the four names is reported where it stands in the text, and a text
/// without any gives no line.
pub proof fn law_dangerous_names_are_reported(content: Seq<char>, name: Seq<char>)
    ensures
        sequences::occurs(content, name) && (name == "CreateRemoteThread"@ || name
            == "SetWindowsHookEx"@ || name == "RegSetValue"@ || name == "InternetOpen"@)
            ==> flag_lines(content, RED_FLAGS@.len()).contains(
            "[Scanner] 🚩 CRITICAL: Found dangerous API reference: "@ + name,
        ),
        !sequences::occurs(content, "CreateRemoteThread"@) && !sequences::occurs(
            content,
            "SetWindowsHookEx"@,
        ) && !sequences::occurs(content, "RegSetValue"@) && !sequences::occurs(
            content,
            "InternetOpen"@,
        ) ==> flag_lines(content, RED_FLAGS@.len()).len() == 0,
{
    let list = RED_FLAGS@;
    assert(list.len() == 4);
    assert(list[0]@ == "CreateRemoteThread"@ && list[1]@ == "SetWindowsHookEx"@ && list[2]@
        == "RegSetValue"@ && list[3]@ == "InternetOpen"@);
    if sequences::occurs(content, name) {
        if name == "CreateRemoteThread"@ {
            lemma_flag_line(content, 4, 0);
        } else if name == "SetWindowsHookEx"@ {
            lemma_flag_line(content, 4, 1);
        } else if name == "RegSetValue"@ {
            lemma_flag_line(content, 4, 2);
        } else if name == "InternetOpen"@ {
            lemma_flag_line(content, 4, 3);
        }
    }
    if !sequences::occurs(content, "CreateRemoteThread"@) && !sequences::occurs(
        content,
        "SetWindowsHookEx"@,
    ) && !sequences::occurs(content, "RegSetValue"@) && !sequences::occurs(
        content,
        "InternetOpen"@,
    ) {
        lemma_no_flag_line(content, 4);
    }
}

/// A process scores five for each look that finds it ended, and nothing while it
/// runs: three such looks make it a threat, two do not.
pub proof fn law_ended_looks_add_up(exit_codes: Seq<u32>, code: u32)
    ensures
        vitals_score(Seq::empty()) == 0,
        code == 259 ==> vitals_score(exit_codes.push(code)) == vitals_score(exit_codes),
        code != 259 ==> vitals_score(exit_codes.push(code)) == vitals_score(exit_codes) + 5,
        2 * 5 <= THREAT_SCORE < 3 * 5,
{
    assert(exit_codes.push(code).drop_last() =~= exit_codes);
}

/// A file that was flagged is blocked, whatever became of its run; one that was
/// not is complete only where the run did not fail.
pub proof fn law_a_flagged_file_is_blocked(malicious: bool, failure: Option<Seq<char>>)
    ensures
        malicious ==> answer_text(malicious, failure).0 == "BLOCKED"@,
        !malicious && failure is None ==> answer_text(malicious, failure).0 == "COMPLETE"@,
        !malicious && failure is Some ==> answer_text(malicious, failure).0 == "ERROR"@
            && sequences::finishes_with(answer_text(malicious, failure).1, failure->0),
{
    if !malicious && failure is Some {
        let words = failure->0;
        let all = answer_text(malicious, failure).1;
        assert(all.subrange(all.len() - words.len(), all.len() as int) =~= words);
    }
}

/// Nothing else is warned of: an unknown kind under another extension than those
/// of plain text, and a document under any but its own, are no mismatch.
pub proof fn law_other_kinds_are_no_mismatch(ext: Seq<char>)
    ensures
        ext != "txt"@ && ext != "csv"@ && ext != "unknown"@ ==> check_line("unknown"@, ext)
            == "[Scanner] Static analysis complete. No major mismatches."@,
        ext != "pdf"@ ==> check_line("pdf"@, ext)
            == "[Scanner] Static analysis complete. No major mismatches."@,
{
    reveal_strlit("exe");
    reveal_strlit("zip");
    reveal_strlit("pdf");
    reveal_strlit("unknown");
    assert("pdf"@[0] != "exe"@[0] && "pdf"@[0] != "zip"@[0]);
    assert("unknown"@.len() != "exe"@.len() && "unknown"@.len() != "zip"@.len()
        && "unknown"@.len() != "pdf"@.len());
}

} // verus!
