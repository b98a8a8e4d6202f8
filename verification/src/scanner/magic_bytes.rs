//! Magic bytes: whether the content of a file matches its claimed extension.
//!
//! Looks at the first span of a download only.
use crate::bytes;
use crate::bytes::pattern_bytes;
use crate::sequences;
use crate::sequences::starts_with;
use crate::numbers::RISK_ONE;
use crate::text;
use crate::text::{claimed_extension_of, is_one_of, same};
use vstd::prelude::*;

verus! {

/// Result from looking at the magic bytes.
#[derive(Debug)]
pub struct MagicBytesResult {
    /// True if the file type could be identified.
    pub valid: bool,
    /// True if the detected type does not match the claimed extension.
    pub mismatch: bool,
    /// Risk contribution.
    pub risk: i64,
    /// Human-readable description.
    pub description: String,
}

/// What a result says.
pub struct MagicModel {
    pub valid: bool,
    pub mismatch: bool,
    pub risk: int,
    pub description: Seq<char>,
}

impl View for MagicBytesResult {
    type V = MagicModel;

    open spec fn view(&self) -> MagicModel {
        MagicModel {
            valid: self.valid,
            mismatch: self.mismatch,
            risk: self.risk as int,
            description: self.description@,
        }
    }
}

/// The result for a span that was not looked at.
pub open spec fn unexamined() -> MagicModel {
    MagicModel { valid: false, mismatch: false, risk: 0, description: Seq::empty() }
}

impl Default for MagicBytesResult {
    fn default() -> (r: Self)
        ensures
            r@ == unexamined(),
    {
        MagicBytesResult { valid: false, mismatch: false, risk: 0, description: String::new() }
    }
}

/// Known byte patterns at the start of a file, and the type they belong to.
pub const SIGNATURES: [(&'static str, &'static str); 19] = [
    ("MZ", "exe"),
    ("\u{7F}ELF", "elf"),
    ("\u{CA}\u{FE}\u{BA}\u{BE}", "class"),
    ("#!", "script"),
    ("%PDF", "pdf"),
    ("PK\u{3}\u{4}", "zip"),
    ("\u{FF}\u{D8}\u{FF}", "jpg"),
    ("\u{89}PNG\r\n\u{1A}\n", "png"),
    ("GIF87a", "gif"),
    ("GIF89a", "gif"),
    ("Rar!\u{1A}\u{7}", "rar"),
    ("7z\u{BC}\u{AF}\u{27}\u{1C}", "7z"),
    ("\u{1F}\u{8B}", "gz"),
    ("BZh", "bz2"),
    ("\u{FD}7zXZ\u{0}", "xz"),
    ("\u{FE}\u{ED}\u{FA}\u{CE}", "macho"),
    ("\u{FE}\u{ED}\u{FA}\u{CF}", "macho"),
    ("\u{CE}\u{FA}\u{ED}\u{FE}", "macho"),
    ("\u{CF}\u{FA}\u{ED}\u{FE}", "macho"),
];

/// Extensions that are in order for each detected type.
pub const ACCEPTED: [(&'static str, &'static str); 43] = [
    ("exe", "exe"),
    ("exe", "dll"),
    ("exe", "sys"),
    ("exe", "scr"),
    ("exe", "com"),
    ("elf", "elf"),
    ("elf", "so"),
    ("elf", "bin"),
    ("elf", "out"),
    ("class", "class"),
    ("class", "jar"),
    ("script", "sh"),
    ("script", "bash"),
    ("script", "py"),
    ("script", "pl"),
    ("script", "rb"),
    ("script", "zsh"),
    ("script", "fish"),
    ("pdf", "pdf"),
    ("zip", "zip"),
    ("zip", "docx"),
    ("zip", "xlsx"),
    ("zip", "pptx"),
    ("zip", "odt"),
    ("zip", "ods"),
    ("zip", "odp"),
    ("zip", "jar"),
    ("zip", "apk"),
    ("zip", "xpi"),
    ("jpg", "jpg"),
    ("jpg", "jpeg"),
    ("png", "png"),
    ("gif", "gif"),
    ("rar", "rar"),
    ("rar", "cbr"),
    ("7z", "7z"),
    ("gz", "gz"),
    ("gz", "tgz"),
    ("bz2", "bz2"),
    ("xz", "xz"),
    ("macho", "dylib"),
    ("macho", "bin"),
    ("macho", "app"),
];

/// Types that run.
pub const EXECUTABLE_TYPES: [&'static str; 5] = ["exe", "elf", "class", "script", "macho"];

pub const TOO_SMALL: &'static str = "Chunk too small for magic-byte identification";

/// Row `k` is the first of the signatures that the data starts with.
pub open spec fn signature_at(data: Seq<u8>, k: int) -> bool {
    &&& 0 <= k < SIGNATURES@.len()
    &&& sequences::begins_with(data, bytes::pattern(SIGNATURES@[k].0@))
    &&& forall|j: int|
        0 <= j < k ==> !sequences::begins_with(
            data,
            bytes::pattern((#[trigger] SIGNATURES@[j]).0@),
        )
}

/// The type that the first bytes of the data show.
pub open spec fn type_of(data: Seq<u8>) -> Option<Seq<char>> {
    if exists|k: int| signature_at(data, k) {
        Some(SIGNATURES@[choose|k: int| signature_at(data, k)].1@)
    } else {
        None
    }
}

/// The table holds the pair of a type and an extension.
pub open spec fn paired(table: Seq<(&'static str, &'static str)>, kind: Seq<char>, ext: Seq<char>) -> bool {
    exists|i: int| 0 <= i < table.len() && (#[trigger] table[i]).0@ == kind && table[i].1@ == ext
}

/// An extension is in order for a detected type.
pub open spec fn accepted(kind: Seq<char>, ext: Seq<char>) -> bool {
    paired(ACCEPTED@, kind, ext)
}

/// What is found for a detected type and a claimed extension.
pub open spec fn identity(kind: Seq<char>, ext: Seq<char>) -> MagicModel {
    if accepted(kind, ext) {
        MagicModel {
            valid: true,
            mismatch: false,
            risk: 0,
            description: "File identity verified: detected '"@ + kind + "', claimed '."@ + ext
                + "'"@,
        }
    } else {
        let runs = text::one_of(kind, EXECUTABLE_TYPES@);
        MagicModel {
            valid: true,
            mismatch: true,
            risk: if runs {
                8_000
            } else {
                4_000
            },
            description: "["@ + (if runs {
                "CRITICAL"@
            } else {
                "WARNING"@
            }) + "] File type mismatch: detected '"@ + kind + "' but claimed extension is '."@ + ext
                + "' — possible trojan/polyglot"@,
        }
    }
}

/// What is found for a file whose type is not known.
pub open spec fn unidentified(filename: Seq<char>) -> MagicModel {
    MagicModel {
        valid: false,
        mismatch: false,
        risk: 500,
        description: "Unknown file type for '"@ + filename + "' (no matching magic bytes)"@,
    }
}

/// What the first span of a file and its name give.
pub open spec fn header_check(data: Seq<u8>, filename: Seq<char>) -> MagicModel {
    if data.len() < 2 {
        MagicModel { valid: false, mismatch: false, risk: 500, description: TOO_SMALL@ }
    } else {
        match type_of(data) {
            Some(kind) => identity(kind, text::claimed_extension(filename)),
            None => unidentified(filename),
        }
    }
}

/// Detects the file type from the magic bytes.
pub fn detect_type(data: &[u8]) -> (r: Option<&'static str>)
    ensures
        r is None <==> type_of(data@) is None,
        r matches Some(kind) ==> type_of(data@) == Some(kind@),
{
    let mut k: usize = 0;
    while k < SIGNATURES.len()
        invariant
            k <= SIGNATURES@.len(),
            forall|j: int|
                0 <= j < k ==> !sequences::begins_with(
                    data@,
                    bytes::pattern((#[trigger] SIGNATURES@[j]).0@),
                ),
        decreases SIGNATURES@.len() - k,
    {
        let pat = pattern_bytes(SIGNATURES[k].0);
        if starts_with(data, pat.as_slice()) {
            assert(signature_at(data@, k as int));
            assert(forall|m: int| signature_at(data@, m) ==> m == k);
            return Some(SIGNATURES[k].1);
        }
        k += 1;
    }
    None
}

/// Whether a table holds the pair of a type and an extension.
fn holds_pair(table: &[(&'static str, &'static str)], kind: &str, ext: &str) -> (r: bool)
    ensures
        r == paired(table@, kind@, ext@),
{
    let mut i: usize = 0;
    while i < table.len()
        invariant
            i <= table@.len(),
            forall|j: int|
                0 <= j < i ==> !((#[trigger] table@[j]).0@ == kind@ && table@[j].1@ == ext@),
        decreases table@.len() - i,
    {
        if same(table[i].0, kind) && same(table[i].1, ext) {
            assert(table@[i as int].0@ == kind@ && table@[i as int].1@ == ext@);
            return true;
        }
        i += 1;
    }
    false
}

/// Whether an extension is in order for a detected type.
pub fn is_accepted(kind: &str, ext: &str) -> (r: bool)
    ensures
        r == accepted(kind@, ext@),
{
    holds_pair(&ACCEPTED, kind, ext)
}

/// Whether a detected type runs.
pub fn is_executable_type(kind: &str) -> (r: bool)
    ensures
        r == text::one_of(kind@, EXECUTABLE_TYPES@),
{
    is_one_of(kind, &EXECUTABLE_TYPES)
}

/// Holds a detected type against a claimed extension.
pub fn check_identity(kind: &str, ext: &str) -> (r: MagicBytesResult)
    ensures
        r@ == identity(kind@, ext@),
{
    if is_accepted(kind, ext) {
        let mut description: String = "File identity verified: detected '".to_string();
        description.append(kind);
        description.append("', claimed '.");
        description.append(ext);
        description.append("'");
        return MagicBytesResult { valid: true, mismatch: false, risk: 0, description };
    }
    let runs = is_executable_type(kind);
    let mut description: String = "[".to_string();
    description.append(
        if runs {
            "CRITICAL"
        } else {
            "WARNING"
        },
    );
    description.append("] File type mismatch: detected '");
    description.append(kind);
    description.append("' but claimed extension is '.");
    description.append(ext);
    description.append("' — possible trojan/polyglot");
    let risk: i64 = if runs {
        8_000
    } else {
        4_000
    };
    MagicBytesResult { valid: true, mismatch: true, risk, description }
}

/// Looks at the first span of a download for a mismatch between its magic
/// bytes and its extension.
pub fn scan_file(data: &[u8], filename: &str) -> (r: MagicBytesResult)
    ensures
        r@ == header_check(data@, filename@),
{
    if data.len() < 2 {
        return MagicBytesResult {
            valid: false,
            mismatch: false,
            risk: 500,
            description: TOO_SMALL.to_string(),
        };
    }
    match detect_type(data) {
        Some(kind) => {
            let ext = claimed_extension_of(filename);
            check_identity(kind, ext.as_str())
        },
        None => {
            let mut description: String = "Unknown file type for '".to_string();
            description.append(filename);
            description.append("' (no matching magic bytes)");
            MagicBytesResult { valid: false, mismatch: false, risk: 500, description }
        },
    }
}

// ---------------------------------------------------------------------------
// Laws
// ---------------------------------------------------------------------------

/// The risk of a header is a risk.
pub proof fn law_header_risk_is_bounded(data: Seq<u8>, filename: Seq<char>)
    ensures
        0 <= header_check(data, filename).risk <= RISK_ONE,
{
}

/// A program under an extension that is not in order for it is a mismatch at
/// the highest risk that a header alone gives.
pub proof fn law_a_disguised_program_weighs_most(
    data: Seq<u8>,
    filename: Seq<char>,
    kind: Seq<char>,
)
    requires
        data.len() >= 2,
        type_of(data) == Some(kind),
        text::one_of(kind, EXECUTABLE_TYPES@),
        !accepted(kind, text::claimed_extension(filename)),
    ensures
        header_check(data, filename).mismatch,
        forall|d: Seq<u8>, f: Seq<char>|
            (#[trigger] header_check(d, f)).risk <= header_check(data, filename).risk,
{
}

/// A file is called mismatched only where its type was recognised.
pub proof fn law_an_unknown_type_is_no_mismatch(data: Seq<u8>, filename: Seq<char>)
    requires
        header_check(data, filename).mismatch,
    ensures
        header_check(data, filename).valid,
        type_of(data) is Some,
{
}

/// The bytes of each signature.
proof fn lemma_signature_bytes()
    ensures
        bytes::pattern(SIGNATURES@[0].0@) == seq![0x4Du8, 0x5A],
        bytes::pattern(SIGNATURES@[1].0@) == seq![0x7Fu8, 0x45, 0x4C, 0x46],
        bytes::pattern(SIGNATURES@[2].0@) == seq![0xCAu8, 0xFE, 0xBA, 0xBE],
        bytes::pattern(SIGNATURES@[3].0@) == seq![0x23u8, 0x21],
        bytes::pattern(SIGNATURES@[4].0@) == seq![0x25u8, 0x50, 0x44, 0x46],
        bytes::pattern(SIGNATURES@[5].0@) == seq![0x50u8, 0x4B, 0x03, 0x04],
        bytes::pattern(SIGNATURES@[6].0@) == seq![0xFFu8, 0xD8, 0xFF],
        bytes::pattern(SIGNATURES@[7].0@) == seq![0x89u8, 0x50, 0x4E, 0x47, 0x0D, 0x0A, 0x1A, 0x0A],
        bytes::pattern(SIGNATURES@[8].0@) == seq![0x47u8, 0x49, 0x46, 0x38, 0x37, 0x61],
        bytes::pattern(SIGNATURES@[9].0@) == seq![0x47u8, 0x49, 0x46, 0x38, 0x39, 0x61],
        bytes::pattern(SIGNATURES@[10].0@) == seq![0x52u8, 0x61, 0x72, 0x21, 0x1A, 0x07],
        bytes::pattern(SIGNATURES@[11].0@) == seq![0x37u8, 0x7A, 0xBC, 0xAF, 0x27, 0x1C],
        bytes::pattern(SIGNATURES@[12].0@) == seq![0x1Fu8, 0x8B],
        bytes::pattern(SIGNATURES@[13].0@) == seq![0x42u8, 0x5A, 0x68],
        bytes::pattern(SIGNATURES@[14].0@) == seq![0xFDu8, 0x37, 0x7A, 0x58, 0x5A, 0x00],
        bytes::pattern(SIGNATURES@[15].0@) == seq![0xFEu8, 0xED, 0xFA, 0xCE],
        bytes::pattern(SIGNATURES@[16].0@) == seq![0xFEu8, 0xED, 0xFA, 0xCF],
        bytes::pattern(SIGNATURES@[17].0@) == seq![0xCEu8, 0xFA, 0xED, 0xFE],
        bytes::pattern(SIGNATURES@[18].0@) == seq![0xCFu8, 0xFA, 0xED, 0xFE],
{
    reveal_strlit("MZ");
    reveal_strlit("\u{7F}ELF");
    reveal_strlit("\u{CA}\u{FE}\u{BA}\u{BE}");
    reveal_strlit("#!");
    reveal_strlit("%PDF");
    reveal_strlit("PK\u{3}\u{4}");
    reveal_strlit("\u{FF}\u{D8}\u{FF}");
    reveal_strlit("\u{89}PNG\r\n\u{1A}\n");
    reveal_strlit("GIF87a");
    reveal_strlit("GIF89a");
    reveal_strlit("Rar!\u{1A}\u{7}");
    reveal_strlit("7z\u{BC}\u{AF}\u{27}\u{1C}");
    reveal_strlit("\u{1F}\u{8B}");
    reveal_strlit("BZh");
    reveal_strlit("\u{FD}7zXZ\u{0}");
    reveal_strlit("\u{FE}\u{ED}\u{FA}\u{CE}");
    reveal_strlit("\u{FE}\u{ED}\u{FA}\u{CF}");
    reveal_strlit("\u{CE}\u{FA}\u{ED}\u{FE}");
    reveal_strlit("\u{CF}\u{FA}\u{ED}\u{FE}");
    assert(bytes::pattern(SIGNATURES@[0].0@) =~= seq![0x4Du8, 0x5A]);
    assert(bytes::pattern(SIGNATURES@[1].0@) =~= seq![0x7Fu8, 0x45, 0x4C, 0x46]);
    assert(bytes::pattern(SIGNATURES@[2].0@) =~= seq![0xCAu8, 0xFE, 0xBA, 0xBE]);
    assert(bytes::pattern(SIGNATURES@[3].0@) =~= seq![0x23u8, 0x21]);
    assert(bytes::pattern(SIGNATURES@[4].0@) =~= seq![0x25u8, 0x50, 0x44, 0x46]);
    assert(bytes::pattern(SIGNATURES@[5].0@) =~= seq![0x50u8, 0x4B, 0x03, 0x04]);
    assert(bytes::pattern(SIGNATURES@[6].0@) =~= seq![0xFFu8, 0xD8, 0xFF]);
    assert(bytes::pattern(SIGNATURES@[7].0@) =~= seq![0x89u8, 0x50, 0x4E, 0x47, 0x0D, 0x0A, 0x1A, 0x0A]);
    assert(bytes::pattern(SIGNATURES@[8].0@) =~= seq![0x47u8, 0x49, 0x46, 0x38, 0x37, 0x61]);
    assert(bytes::pattern(SIGNATURES@[9].0@) =~= seq![0x47u8, 0x49, 0x46, 0x38, 0x39, 0x61]);
    assert(bytes::pattern(SIGNATURES@[10].0@) =~= seq![0x52u8, 0x61, 0x72, 0x21, 0x1A, 0x07]);
    assert(bytes::pattern(SIGNATURES@[11].0@) =~= seq![0x37u8, 0x7A, 0xBC, 0xAF, 0x27, 0x1C]);
    assert(bytes::pattern(SIGNATURES@[12].0@) =~= seq![0x1Fu8, 0x8B]);
    assert(bytes::pattern(SIGNATURES@[13].0@) =~= seq![0x42u8, 0x5A, 0x68]);
    assert(bytes::pattern(SIGNATURES@[14].0@) =~= seq![0xFDu8, 0x37, 0x7A, 0x58, 0x5A, 0x00]);
    assert(bytes::pattern(SIGNATURES@[15].0@) =~= seq![0xFEu8, 0xED, 0xFA, 0xCE]);
    assert(bytes::pattern(SIGNATURES@[16].0@) =~= seq![0xFEu8, 0xED, 0xFA, 0xCF]);
    assert(bytes::pattern(SIGNATURES@[17].0@) =~= seq![0xCEu8, 0xFA, 0xED, 0xFE]);
    assert(bytes::pattern(SIGNATURES@[18].0@) =~= seq![0xCFu8, 0xFA, 0xED, 0xFE]);
}

/// The bytes with which a file starts, two or more.
proof fn lemma_first_byte(data: Seq<u8>, pat: Seq<u8>)
    requires
        sequences::begins_with(data, pat),
        pat.len() >= 2,
    ensures
        data[0] == pat[0],
        data.len() >= 2,
{
    assert(data.subrange(0, pat.len() as int)[0] == data[0]);
}

/// The first byte tells the type of a signature.
proof fn lemma_type_by_first_byte(data: Seq<u8>, k: int)
    requires
        signature_at(data, k),
    ensures
        data.len() >= 2,
        SIGNATURES@[k].1@ == if data[0] == 0x4D {
            "exe"@
        } else if data[0] == 0x7F {
            "elf"@
        } else if data[0] == 0xCA {
            "class"@
        } else if data[0] == 0x23 {
            "script"@
        } else if data[0] == 0x25 {
            "pdf"@
        } else if data[0] == 0x50 {
            "zip"@
        } else if data[0] == 0xFF {
            "jpg"@
        } else if data[0] == 0x89 {
            "png"@
        } else if data[0] == 0x47 {
            "gif"@
        } else if data[0] == 0x52 {
            "rar"@
        } else if data[0] == 0x37 {
            "7z"@
        } else if data[0] == 0x1F {
            "gz"@
        } else if data[0] == 0x42 {
            "bz2"@
        } else if data[0] == 0xFD {
            "xz"@
        } else {
            "macho"@
        },
        sequences::begins_with(data, bytes::pattern(SIGNATURES@[k].0@)),
{
    lemma_signature_bytes();
    lemma_first_byte(data, bytes::pattern(SIGNATURES@[k].0@));
}

/// Some row stands where one does.
proof fn lemma_some_signature(data: Seq<u8>, k: int)
    requires
        0 <= k < SIGNATURES@.len(),
        sequences::begins_with(data, bytes::pattern(SIGNATURES@[k].0@)),
    ensures
        type_of(data) is Some,
    decreases k,
{
    if forall|j: int|
        0 <= j < k ==> !sequences::begins_with(
            data,
            bytes::pattern((#[trigger] SIGNATURES@[j]).0@),
        ) {
        assert(signature_at(data, k));
    } else {
        let j = choose|j: int|
            0 <= j < k && sequences::begins_with(
                data,
                bytes::pattern((#[trigger] SIGNATURES@[j]).0@),
            );
        lemma_some_signature(data, j);
    }
}

/// A file that starts with a signature is of its type.
proof fn lemma_type_of_row(data: Seq<u8>, k: int)
    requires
        0 <= k < SIGNATURES@.len(),
        sequences::begins_with(data, bytes::pattern(SIGNATURES@[k].0@)),
    ensures
        type_of(data) == Some(SIGNATURES@[k].1@),
{
    lemma_some_signature(data, k);
    let first = choose|j: int| signature_at(data, j);
    lemma_type_by_first_byte(data, first);
    lemma_signature_bytes();
    lemma_first_byte(data, bytes::pattern(SIGNATURES@[k].0@));
}

/// The first bytes tell the type of a file, whatever follows them: programs of
/// three systems, compiled classes and scripts, documents, archives and images
/// each have their own.
pub proof fn law_the_first_bytes_tell_the_type(data: Seq<u8>)
    ensures
        sequences::begins_with(data, seq![0x4Du8, 0x5A]) ==> type_of(data) == Some("exe"@),
        sequences::begins_with(data, seq![0x7Fu8, 0x45, 0x4C, 0x46]) ==> type_of(data) == Some("elf"@),
        sequences::begins_with(data, seq![0xCAu8, 0xFE, 0xBA, 0xBE]) ==> type_of(data) == Some("class"@),
        sequences::begins_with(data, seq![0x23u8, 0x21]) ==> type_of(data) == Some("script"@),
        sequences::begins_with(data, seq![0x25u8, 0x50, 0x44, 0x46]) ==> type_of(data) == Some("pdf"@),
        sequences::begins_with(data, seq![0x50u8, 0x4B, 0x03, 0x04]) ==> type_of(data) == Some("zip"@),
        sequences::begins_with(data, seq![0xFFu8, 0xD8, 0xFF]) ==> type_of(data) == Some("jpg"@),
        sequences::begins_with(data, seq![0x89u8, 0x50, 0x4E, 0x47, 0x0D, 0x0A, 0x1A, 0x0A]) ==> type_of(data) == Some("png"@),
        sequences::begins_with(data, seq![0x47u8, 0x49, 0x46, 0x38, 0x37, 0x61]) ==> type_of(data) == Some("gif"@),
        sequences::begins_with(data, seq![0x47u8, 0x49, 0x46, 0x38, 0x39, 0x61]) ==> type_of(data) == Some("gif"@),
        sequences::begins_with(data, seq![0x52u8, 0x61, 0x72, 0x21, 0x1A, 0x07]) ==> type_of(data) == Some("rar"@),
        sequences::begins_with(data, seq![0x37u8, 0x7A, 0xBC, 0xAF, 0x27, 0x1C]) ==> type_of(data) == Some("7z"@),
        sequences::begins_with(data, seq![0x1Fu8, 0x8B]) ==> type_of(data) == Some("gz"@),
        sequences::begins_with(data, seq![0x42u8, 0x5A, 0x68]) ==> type_of(data) == Some("bz2"@),
        sequences::begins_with(data, seq![0xFDu8, 0x37, 0x7A, 0x58, 0x5A, 0x00]) ==> type_of(data) == Some("xz"@),
        sequences::begins_with(data, seq![0xFEu8, 0xED, 0xFA, 0xCE]) ==> type_of(data) == Some("macho"@),
        sequences::begins_with(data, seq![0xFEu8, 0xED, 0xFA, 0xCF]) ==> type_of(data) == Some("macho"@),
        sequences::begins_with(data, seq![0xCEu8, 0xFA, 0xED, 0xFE]) ==> type_of(data) == Some("macho"@),
        sequences::begins_with(data, seq![0xCFu8, 0xFA, 0xED, 0xFE]) ==> type_of(data) == Some("macho"@),
{
    lemma_signature_bytes();
    if sequences::begins_with(data, seq![0x4Du8, 0x5A]) {
        lemma_type_of_row(data, 0);
    }
    if sequences::begins_with(data, seq![0x7Fu8, 0x45, 0x4C, 0x46]) {
        lemma_type_of_row(data, 1);
    }
    if sequences::begins_with(data, seq![0xCAu8, 0xFE, 0xBA, 0xBE]) {
        lemma_type_of_row(data, 2);
    }
    if sequences::begins_with(data, seq![0x23u8, 0x21]) {
        lemma_type_of_row(data, 3);
    }
    if sequences::begins_with(data, seq![0x25u8, 0x50, 0x44, 0x46]) {
        lemma_type_of_row(data, 4);
    }
    if sequences::begins_with(data, seq![0x50u8, 0x4B, 0x03, 0x04]) {
        lemma_type_of_row(data, 5);
    }
    if sequences::begins_with(data, seq![0xFFu8, 0xD8, 0xFF]) {
        lemma_type_of_row(data, 6);
    }
    if sequences::begins_with(data, seq![0x89u8, 0x50, 0x4E, 0x47, 0x0D, 0x0A, 0x1A, 0x0A]) {
        lemma_type_of_row(data, 7);
    }
    if sequences::begins_with(data, seq![0x47u8, 0x49, 0x46, 0x38, 0x37, 0x61]) {
        lemma_type_of_row(data, 8);
    }
    if sequences::begins_with(data, seq![0x47u8, 0x49, 0x46, 0x38, 0x39, 0x61]) {
        lemma_type_of_row(data, 9);
    }
    if sequences::begins_with(data, seq![0x52u8, 0x61, 0x72, 0x21, 0x1A, 0x07]) {
        lemma_type_of_row(data, 10);
    }
    if sequences::begins_with(data, seq![0x37u8, 0x7A, 0xBC, 0xAF, 0x27, 0x1C]) {
        lemma_type_of_row(data, 11);
    }
    if sequences::begins_with(data, seq![0x1Fu8, 0x8B]) {
        lemma_type_of_row(data, 12);
    }
    if sequences::begins_with(data, seq![0x42u8, 0x5A, 0x68]) {
        lemma_type_of_row(data, 13);
    }
    if sequences::begins_with(data, seq![0xFDu8, 0x37, 0x7A, 0x58, 0x5A, 0x00]) {
        lemma_type_of_row(data, 14);
    }
    if sequences::begins_with(data, seq![0xFEu8, 0xED, 0xFA, 0xCE]) {
        lemma_type_of_row(data, 15);
    }
    if sequences::begins_with(data, seq![0xFEu8, 0xED, 0xFA, 0xCF]) {
        lemma_type_of_row(data, 16);
    }
    if sequences::begins_with(data, seq![0xCEu8, 0xFA, 0xED, 0xFE]) {
        lemma_type_of_row(data, 17);
    }
    if sequences::begins_with(data, seq![0xCFu8, 0xFA, 0xED, 0xFE]) {
        lemma_type_of_row(data, 18);
    }
}

/// No other first bytes tell a type.
pub proof fn law_no_other_bytes_tell_a_type(data: Seq<u8>)
    requires
        type_of(data) is Some,
    ensures
        ({
            ||| sequences::begins_with(data, seq![0x4Du8, 0x5A])
            ||| sequences::begins_with(data, seq![0x7Fu8, 0x45, 0x4C, 0x46])
            ||| sequences::begins_with(data, seq![0xCAu8, 0xFE, 0xBA, 0xBE])
            ||| sequences::begins_with(data, seq![0x23u8, 0x21])
            ||| sequences::begins_with(data, seq![0x25u8, 0x50, 0x44, 0x46])
            ||| sequences::begins_with(data, seq![0x50u8, 0x4B, 0x03, 0x04])
            ||| sequences::begins_with(data, seq![0xFFu8, 0xD8, 0xFF])
            ||| sequences::begins_with(data, seq![0x89u8, 0x50, 0x4E, 0x47, 0x0D, 0x0A, 0x1A, 0x0A])
            ||| sequences::begins_with(data, seq![0x47u8, 0x49, 0x46, 0x38, 0x37, 0x61])
            ||| sequences::begins_with(data, seq![0x47u8, 0x49, 0x46, 0x38, 0x39, 0x61])
            ||| sequences::begins_with(data, seq![0x52u8, 0x61, 0x72, 0x21, 0x1A, 0x07])
            ||| sequences::begins_with(data, seq![0x37u8, 0x7A, 0xBC, 0xAF, 0x27, 0x1C])
            ||| sequences::begins_with(data, seq![0x1Fu8, 0x8B])
            ||| sequences::begins_with(data, seq![0x42u8, 0x5A, 0x68])
            ||| sequences::begins_with(data, seq![0xFDu8, 0x37, 0x7A, 0x58, 0x5A, 0x00])
            ||| sequences::begins_with(data, seq![0xFEu8, 0xED, 0xFA, 0xCE])
            ||| sequences::begins_with(data, seq![0xFEu8, 0xED, 0xFA, 0xCF])
            ||| sequences::begins_with(data, seq![0xCEu8, 0xFA, 0xED, 0xFE])
            ||| sequences::begins_with(data, seq![0xCFu8, 0xFA, 0xED, 0xFE])
        }),
{
    lemma_signature_bytes();
    let k = choose|k: int| signature_at(data, k);
    assert(SIGNATURES@.len() == 19);
}

/// A recognised type under an extension that is not in order for it is a
/// mismatch, whether the type runs or not, and a mismatch is a risk: twice as
/// great where it runs. Under an extension that is in order there is none.
pub proof fn law_a_foreign_extension_is_a_mismatch(
    data: Seq<u8>,
    filename: Seq<char>,
    kind: Seq<char>,
)
    requires
        type_of(data) == Some(kind),
    ensures
        header_check(data, filename).valid,
        header_check(data, filename).mismatch <==> !accepted(
            kind,
            text::claimed_extension(filename),
        ),
        header_check(data, filename).mismatch ==> header_check(data, filename).risk == if kind
            == "exe"@ || kind == "elf"@ || kind == "class"@ || kind == "script"@ || kind == "macho"@ {
            8_000int
        } else {
            4_000
        },
        !header_check(data, filename).mismatch ==> header_check(data, filename).risk == 0,
        sequences::occurs(header_check(data, filename).description, kind),
        sequences::occurs(
            header_check(data, filename).description,
            text::claimed_extension(filename),
        ),
{
    let k = choose|k: int| signature_at(data, k);
    lemma_type_by_first_byte(data, k);
    let list = EXECUTABLE_TYPES@;
    assert(list[0]@ == "exe"@ && list[1]@ == "elf"@ && list[2]@ == "class"@ && list[3]@
        == "script"@ && list[4]@ == "macho"@ && list.len() == 5);
    let ext = text::claimed_extension(filename);
    let d = header_check(data, filename).description;
    if accepted(kind, ext) {
        let lead = "File identity verified: detected '"@;
        let middle = "', claimed '."@;
        assert(d.subrange(lead.len() as int, (lead.len() + kind.len()) as int) =~= kind);
        assert(sequences::occurs_at(d, kind, lead.len() as int));
        let at = (lead.len() + kind.len() + middle.len()) as int;
        assert(d.subrange(at, (at + ext.len()) as int) =~= ext);
        assert(sequences::occurs_at(d, ext, at));
    } else {
        let lead = "["@ + (if text::one_of(kind, EXECUTABLE_TYPES@) {
            "CRITICAL"@
        } else {
            "WARNING"@
        }) + "] File type mismatch: detected '"@;
        let middle = "' but claimed extension is '."@;
        assert(d.subrange(lead.len() as int, (lead.len() + kind.len()) as int) =~= kind);
        assert(sequences::occurs_at(d, kind, lead.len() as int));
        let at = (lead.len() + kind.len() + middle.len()) as int;
        assert(d.subrange(at, (at + ext.len()) as int) =~= ext);
        assert(sequences::occurs_at(d, ext, at));
    }
}

/// A file whose type is not known is no mismatch; that it is not known is a
/// slight risk.
pub proof fn law_an_unknown_type_is_a_slight_risk(data: Seq<u8>, filename: Seq<char>)
    requires
        type_of(data) is None,
    ensures
        !header_check(data, filename).valid,
        !header_check(data, filename).mismatch,
        header_check(data, filename).risk == 500,
{
}

/// Which extensions are in order for a type: its own, and those of the formats
/// that are built on it. No other is.
pub proof fn law_which_extensions_are_in_order(kind: Seq<char>, ext: Seq<char>)
    ensures
        accepted(kind, ext) <==> {
            ||| kind == "exe"@ && (ext == "exe"@ || ext == "dll"@ || ext == "sys"@ || ext == "scr"@ || ext == "com"@)
            ||| kind == "elf"@ && (ext == "elf"@ || ext == "so"@ || ext == "bin"@ || ext == "out"@)
            ||| kind == "class"@ && (ext == "class"@ || ext == "jar"@)
            ||| kind == "script"@ && (ext == "sh"@ || ext == "bash"@ || ext == "py"@ || ext == "pl"@ || ext == "rb"@ || ext == "zsh"@ || ext == "fish"@)
            ||| kind == "pdf"@ && ext == "pdf"@
            ||| kind == "zip"@ && (ext == "zip"@ || ext == "docx"@ || ext == "xlsx"@ || ext == "pptx"@ || ext == "odt"@ || ext == "ods"@ || ext == "odp"@ || ext == "jar"@ || ext == "apk"@ || ext == "xpi"@)
            ||| kind == "jpg"@ && (ext == "jpg"@ || ext == "jpeg"@)
            ||| kind == "png"@ && ext == "png"@
            ||| kind == "gif"@ && ext == "gif"@
            ||| kind == "rar"@ && (ext == "rar"@ || ext == "cbr"@)
            ||| kind == "7z"@ && ext == "7z"@
            ||| kind == "gz"@ && (ext == "gz"@ || ext == "tgz"@)
            ||| kind == "bz2"@ && ext == "bz2"@
            ||| kind == "xz"@ && ext == "xz"@
            ||| kind == "macho"@ && (ext == "dylib"@ || ext == "bin"@ || ext == "app"@)
        },
{
    let table = ACCEPTED@;
    assert(table.len() == 43);
    assert(table[0].0@ == "exe"@ && table[0].1@ == "exe"@);
    assert(table[1].0@ == "exe"@ && table[1].1@ == "dll"@);
    assert(table[2].0@ == "exe"@ && table[2].1@ == "sys"@);
    assert(table[3].0@ == "exe"@ && table[3].1@ == "scr"@);
    assert(table[4].0@ == "exe"@ && table[4].1@ == "com"@);
    assert(table[5].0@ == "elf"@ && table[5].1@ == "elf"@);
    assert(table[6].0@ == "elf"@ && table[6].1@ == "so"@);
    assert(table[7].0@ == "elf"@ && table[7].1@ == "bin"@);
    assert(table[8].0@ == "elf"@ && table[8].1@ == "out"@);
    assert(table[9].0@ == "class"@ && table[9].1@ == "class"@);
    assert(table[10].0@ == "class"@ && table[10].1@ == "jar"@);
    assert(table[11].0@ == "script"@ && table[11].1@ == "sh"@);
    assert(table[12].0@ == "script"@ && table[12].1@ == "bash"@);
    assert(table[13].0@ == "script"@ && table[13].1@ == "py"@);
    assert(table[14].0@ == "script"@ && table[14].1@ == "pl"@);
    assert(table[15].0@ == "script"@ && table[15].1@ == "rb"@);
    assert(table[16].0@ == "script"@ && table[16].1@ == "zsh"@);
    assert(table[17].0@ == "script"@ && table[17].1@ == "fish"@);
    assert(table[18].0@ == "pdf"@ && table[18].1@ == "pdf"@);
    assert(table[19].0@ == "zip"@ && table[19].1@ == "zip"@);
    assert(table[20].0@ == "zip"@ && table[20].1@ == "docx"@);
    assert(table[21].0@ == "zip"@ && table[21].1@ == "xlsx"@);
    assert(table[22].0@ == "zip"@ && table[22].1@ == "pptx"@);
    assert(table[23].0@ == "zip"@ && table[23].1@ == "odt"@);
    assert(table[24].0@ == "zip"@ && table[24].1@ == "ods"@);
    assert(table[25].0@ == "zip"@ && table[25].1@ == "odp"@);
    assert(table[26].0@ == "zip"@ && table[26].1@ == "jar"@);
    assert(table[27].0@ == "zip"@ && table[27].1@ == "apk"@);
    assert(table[28].0@ == "zip"@ && table[28].1@ == "xpi"@);
    assert(table[29].0@ == "jpg"@ && table[29].1@ == "jpg"@);
    assert(table[30].0@ == "jpg"@ && table[30].1@ == "jpeg"@);
    assert(table[31].0@ == "png"@ && table[31].1@ == "png"@);
    assert(table[32].0@ == "gif"@ && table[32].1@ == "gif"@);
    assert(table[33].0@ == "rar"@ && table[33].1@ == "rar"@);
    assert(table[34].0@ == "rar"@ && table[34].1@ == "cbr"@);
    assert(table[35].0@ == "7z"@ && table[35].1@ == "7z"@);
    assert(table[36].0@ == "gz"@ && table[36].1@ == "gz"@);
    assert(table[37].0@ == "gz"@ && table[37].1@ == "tgz"@);
    assert(table[38].0@ == "bz2"@ && table[38].1@ == "bz2"@);
    assert(table[39].0@ == "xz"@ && table[39].1@ == "xz"@);
    assert(table[40].0@ == "macho"@ && table[40].1@ == "dylib"@);
    assert(table[41].0@ == "macho"@ && table[41].1@ == "bin"@);
    assert(table[42].0@ == "macho"@ && table[42].1@ == "app"@);
}

/// A header that was looked at is described.
pub proof fn law_a_header_is_described(data: Seq<u8>, filename: Seq<char>)
    ensures
        header_check(data, filename).description.len() > 0,
{
    reveal_strlit("Chunk too small for magic-byte identification");
    reveal_strlit("File identity verified: detected '");
    reveal_strlit("[");
    reveal_strlit("Unknown file type for '");
}

} // verus!
