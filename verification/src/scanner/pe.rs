//! Structure of Portable Executable images.
//!
//! Packers leave fingerprints in the section table that survive every attempt
//! to hide the content: a section that is filled at run time, a section that is
//! writable and executable, an entry point outside every section, a name that
//! no compiler emits. Every offset comes from the file under inspection, so
//! nothing is read without a bounds check; a malformed header is no image.
use crate::bytes;
use crate::bytes::{u16_at, u32_at};
use crate::numbers;
use crate::numbers::{push_decimal, push_hexadecimal};
use crate::scanner::finding;
use crate::scanner::finding::{
    append_all, append_one, one_lines, worst, Finding, FindingModel, Severity,
};
use crate::sequences;
use crate::sequences::{matches_at, starts_with};
use crate::text;
use crate::text::{equal_ignoring_ascii_case, join, string_of};
use vstd::prelude::*;

verus! {

/// Result of the analysis.
#[derive(Debug)]
pub struct PeResult {
    /// The file is a well-formed image.
    pub is_pe: bool,
    pub flagged: bool,
    pub flags: Vec<String>,
    pub findings: Vec<Finding>,
    pub risk: i64,
    pub section_count: usize,
}

/// `MZ`.
pub const DOS_HEADER: [u8; 2] = [0x4D, 0x5A];

/// `PE` and two zero bytes.
pub const PE_HEADER: [u8; 4] = [0x50, 0x45, 0x00, 0x00];

/// The flag of a section whose memory can be executed.
pub const MEM_EXECUTE: u32 = 0x2000_0000;

/// The flag of a section whose memory can be written.
pub const MEM_WRITE: u32 = 0x8000_0000;

/// More sections than this no real image has.
pub const MAX_SECTIONS: u16 = 96;

/// Section names that mainstream toolchains emit.
pub const KNOWN_SECTIONS: [&'static str; 26] = [
    ".text", ".data", ".rdata", ".bss", ".idata", ".edata", ".pdata", ".xdata", ".rsrc", ".reloc",
    ".tls", ".debug", ".didat", ".gfids", ".sxdata", ".CRT", ".INIT", ".00cfg", ".textbss",
    ".drectve", ".symtab", ".shared", ".rodata", ".eh_fram", ".init", ".fini",
];

/// Section names associated with specific packers.
pub const PACKER_SECTIONS: [(&'static str, &'static str); 19] = [
    ("UPX0", "UPX"),
    ("UPX1", "UPX"),
    ("UPX2", "UPX"),
    (".aspack", "ASPack"),
    (".adata", "ASPack"),
    (".themida", "Themida"),
    (".winlice", "WinLicense"),
    (".vmp0", "VMProtect"),
    (".vmp1", "VMProtect"),
    (".vmp2", "VMProtect"),
    (".petite", "Petite"),
    (".MPRESS1", "MPRESS"),
    (".MPRESS2", "MPRESS"),
    ("nsp0", "NsPack"),
    ("nsp1", "NsPack"),
    (".enigma1", "Enigma"),
    (".enigma2", "Enigma"),
    ("PELock", "PELock"),
    (".packed", "generic packer"),
];

pub const COUNT_TITLE: &'static str = "Program file is malformed";

pub const COUNT_WHY: &'static str = "A header this broken is either corrupt or deliberately malformed to confuse security \
     scanners into misreading the file or crashing.";

pub const TRUNCATED_TITLE: &'static str = "Program file is truncated or malformed";

pub const TRUNCATED_DETAIL: &'static str = "The section table claims to extend past the end of the file.";

pub const TRUNCATED_WHY: &'static str = "The file does not match its own description of itself - it is either damaged or                  crafted to confuse tools that parse it.";

pub const REWRITES_TITLE: &'static str = "Program can rewrite its own code while running";

pub const REWRITES_WHY: &'static str = "Compilers never produce this. It means the program modifies its own instructions \
     as it runs, which is how packed malware unpacks its real payload in memory, where \
     a file scanner cannot see it.";

pub const EXPANDS_TITLE: &'static str = "Program expands itself in memory when run";

pub const EXPANDS_WHY: &'static str = "The missing content is generated while the program runs. This is how packers \
     work: the real code only exists once it has started, so nothing on disk reveals \
     what it actually does.";

pub const ABSENT_TITLE: &'static str = "Program contains code that does not exist on disk";

pub const ABSENT_WHY: &'static str = "Code must be written into this space before it can run, meaning the program \
     assembles its real instructions at runtime rather than shipping them where they \
     could be inspected.";

pub const PACKED_WHY: &'static str = "Packing compresses a program so its contents cannot be examined until it runs. \
     Legitimate software occasionally does this to save space; malware does it to \
     hide what it will do.";

pub const ENTRY_TITLE: &'static str = "Program starts from an address it never declared";

pub const ENTRY_WHY: &'static str = "The program begins executing somewhere it told the system nothing about. This is what \
     happens when a file has been tampered with to inject code, or when it is hiding where \
     execution really begins.";

pub const NAMES_TITLE: &'static str = "Program was not built by a standard compiler";

pub const NAMES_WHY: &'static str = "Mainstream compilers emit a well-known set of section names. Unusual ones suggest \
     the file was assembled by a packer or a custom tool rather than built normally.";

// ---------------------------------------------------------------------------
// Headers
// ---------------------------------------------------------------------------

/// Where the PE header stands, in data that has one.
pub open spec fn header_at(data: Seq<u8>) -> Option<int> {
    if data.len() < 64 || !sequences::begins_with(data, DOS_HEADER@) {
        None
    } else {
        let at = bytes::word32(data, 0x3C)->0;
        if at < 64 || at + 24 > data.len() || !sequences::occurs_at(data, PE_HEADER@, at as int) {
            None
        } else {
            Some(at as int)
        }
    }
}

/// The number of sections that the header at `at` declares.
pub open spec fn declared_sections(data: Seq<u8>, at: int) -> u16 {
    bytes::word16(data, at + 6)->0
}

/// Where the section table starts, behind the optional header.
pub open spec fn table_at(data: Seq<u8>, at: int) -> int {
    at + 24 + bytes::word16(data, at + 20)->0
}

/// How many of `n` sections lie within the data from `table` on.
pub open spec fn readable_sections(data: Seq<u8>, table: int, n: int) -> int {
    if table > data.len() {
        0
    } else if (data.len() - table) / 40 < n {
        (data.len() - table) / 40
    } else {
        n
    }
}

/// Locates the PE header.
fn find_header(data: &[u8]) -> (r: Option<usize>)
    ensures
        r is None <==> header_at(data@) is None,
        r matches Some(at) ==> header_at(data@) == Some(at as int) && at + 24 <= data@.len() && at
            >= 64,
{
    let n: usize = data.len();
    if n < 64 || !starts_with(data, &DOS_HEADER) {
        return None;
    }
    match u32_at(data, 0x3C) {
        Some(at) => {
            if at < 64 || at as u64 + 24 > n as u64 {
                return None;
            }
            let at: usize = at as usize;
            if matches_at(data, &PE_HEADER, at) {
                Some(at)
            } else {
                None
            }
        },
        None => None,
    }
}

// ---------------------------------------------------------------------------
// One section
// ---------------------------------------------------------------------------

/// What a section header says.
pub struct Section {
    pub name: String,
    pub virtual_size: u32,
    pub virtual_addr: u32,
    pub raw_size: u32,
    pub characteristics: u32,
}

/// What a section header says.
pub struct SectionModel {
    pub name: Seq<char>,
    pub virtual_size: u32,
    pub virtual_addr: u32,
    pub raw_size: u32,
    pub characteristics: u32,
}

impl View for Section {
    type V = SectionModel;

    open spec fn view(&self) -> SectionModel {
        SectionModel {
            name: self.name@,
            virtual_size: self.virtual_size,
            virtual_addr: self.virtual_addr,
            raw_size: self.raw_size,
            characteristics: self.characteristics,
        }
    }
}

/// The name in the `width` bytes from `off` on: what stands before the first
/// zero byte, a character for a byte.
pub open spec fn name_at(data: Seq<u8>, off: int, width: nat) -> Seq<char>
    decreases width,
{
    if width == 0 || data[off] == 0 {
        Seq::empty()
    } else {
        seq![data[off] as char] + name_at(data, off + 1, (width - 1) as nat)
    }
}

/// The section header at `off`.
pub open spec fn section_at(data: Seq<u8>, off: int) -> SectionModel {
    SectionModel {
        name: name_at(data, off, 8),
        virtual_size: bytes::word32(data, off + 8)->0,
        virtual_addr: bytes::word32(data, off + 12)->0,
        raw_size: bytes::word32(data, off + 16)->0,
        characteristics: bytes::word32(data, off + 36)->0,
    }
}

/// A section can be written.
pub open spec fn writable(s: SectionModel) -> bool {
    s.characteristics / MEM_WRITE % 2 == 1
}

/// A section can be executed.
pub open spec fn executable(s: SectionModel) -> bool {
    s.characteristics / MEM_EXECUTE % 2 == 1
}

/// An address lies in a section, whose end 32 bits hold at most.
pub open spec fn covers(s: SectionModel, address: u32) -> bool {
    &&& s.virtual_size > 0
    &&& s.virtual_addr <= address
    &&& address < s.virtual_addr + s.virtual_size
    &&& address < u32::MAX
}

/// A section that is filled at run time: in memory it is more than four times
/// what it is on disk, and more than a page.
pub open spec fn expands(s: SectionModel) -> bool {
    &&& s.raw_size > 0
    &&& s.virtual_size > 4 * s.raw_size
    &&& s.virtual_size > 0x1000
}

/// Row `k` of the packers is the first one for a section name.
pub open spec fn packer_row_at(name: Seq<char>, k: int) -> bool {
    &&& 0 <= k < PACKER_SECTIONS@.len()
    &&& text::same_ignoring_ascii_case(PACKER_SECTIONS@[k].0@, name)
    &&& forall|j: int|
        0 <= j < k ==> !text::same_ignoring_ascii_case(
            (#[trigger] PACKER_SECTIONS@[j]).0@,
            name,
        )
}

/// The packer to which a section name belongs.
pub open spec fn packer_of(name: Seq<char>) -> Option<Seq<char>> {
    if exists|k: int| packer_row_at(name, k) {
        Some(PACKER_SECTIONS@[choose|k: int| packer_row_at(name, k)].1@)
    } else {
        None
    }
}

/// A section name that mainstream toolchains emit.
pub open spec fn known_name(name: Seq<char>) -> bool {
    exists|k: int|
        0 <= k < KNOWN_SECTIONS@.len() && text::same_ignoring_ascii_case(
            (#[trigger] KNOWN_SECTIONS@[k])@,
            name,
        )
}

/// A section name that is neither a packer's nor a toolchain's.
pub open spec fn unrecognised(name: Seq<char>) -> bool {
    packer_of(name) is None && name.len() > 0 && !known_name(name)
}

/// The finding about a section that is writable and executable.
pub open spec fn rewrites(s: SectionModel) -> Seq<FindingModel> {
    if writable(s) && executable(s) {
        seq![
            finding::finding(
                Severity::High,
                REWRITES_TITLE@,
                "Section '"@ + s.name + "' is marked both writable and executable."@,
                REWRITES_WHY@,
                7_000,
            ),
        ]
    } else {
        Seq::empty()
    }
}

/// The finding about a section that is filled at run time.
pub open spec fn expansion(s: SectionModel) -> Seq<FindingModel> {
    if expands(s) {
        seq![
            finding::finding(
                Severity::High,
                EXPANDS_TITLE@,
                "Section '"@ + s.name + "' occupies "@ + numbers::decimal(s.virtual_size as nat)
                    + " bytes in memory but only "@ + numbers::decimal(s.raw_size as nat)
                    + " on disk."@,
                EXPANDS_WHY@,
                5_500,
            ),
        ]
    } else {
        Seq::empty()
    }
}

/// The finding about an executable section without content on disk.
pub open spec fn absence(s: SectionModel) -> Seq<FindingModel> {
    if s.raw_size == 0 && executable(s) && s.virtual_size > 0 {
        seq![
            finding::finding(
                Severity::High,
                ABSENT_TITLE@,
                "Section '"@ + s.name
                    + "' is marked executable but contains no data in the file."@,
                ABSENT_WHY@,
                6_000,
            ),
        ]
    } else {
        Seq::empty()
    }
}

/// The finding about a section that a packer named.
pub open spec fn packing(s: SectionModel) -> Seq<FindingModel> {
    match packer_of(s.name) {
        Some(packer) => seq![
            finding::finding(
                Severity::High,
                "Program is compressed with "@ + packer,
                "Section name '"@ + s.name + "' is the signature of the "@ + packer + " packer."@,
                PACKED_WHY@,
                6_000,
            ),
        ],
        None => Seq::empty(),
    }
}

/// Everything that one section gives to report.
pub open spec fn section_findings(s: SectionModel) -> Seq<FindingModel> {
    rewrites(s) + expansion(s) + absence(s) + packing(s)
}

/// Reads the name of a section.
fn read_name(data: &[u8], off: usize, width: usize) -> (r: Vec<char>)
    requires
        off + width <= data@.len(),
    ensures
        r@ == name_at(data@, off as int, width as nat),
{
    let n: usize = data.len();
    let mut out: Vec<char> = Vec::new();
    let mut i: usize = 0;
    while i < width && data[off + i] != 0
        invariant
            n == data@.len(),
            off + width <= n,
            i <= width,
            name_at(data@, off as int, width as nat) == out@ + name_at(
                data@,
                off + i,
                (width - i) as nat,
            ),
        decreases width - i,
    {
        let ghost before = out@;
        out.push(data[off + i] as char);
        proof {
            let rest = name_at(data@, off + i + 1, (width - i - 1) as nat);
            assert(before + (seq![data@[off + i] as char] + rest) =~= before.push(
                data@[off + i] as char,
            ) + rest);
        }
        i += 1;
    }
    assert(out@ + Seq::<char>::empty() =~= out@);
    out
}

/// Reads the section header at `off`.
fn read_section(data: &[u8], off: usize) -> (r: Section)
    requires
        off + 40 <= data@.len(),
    ensures
        r@ == section_at(data@, off as int),
{
    let n: usize = data.len();
    let name = string_of(read_name(data, off, 8).as_slice());
    let virtual_size: u32 = match u32_at(data, off + 8) {
        Some(v) => v,
        None => 0,
    };
    let virtual_addr: u32 = match u32_at(data, off + 12) {
        Some(v) => v,
        None => 0,
    };
    let raw_size: u32 = match u32_at(data, off + 16) {
        Some(v) => v,
        None => 0,
    };
    let characteristics: u32 = match u32_at(data, off + 36) {
        Some(v) => v,
        None => 0,
    };
    Section { name, virtual_size, virtual_addr, raw_size, characteristics }
}

/// The packer to which a section name belongs.
fn find_packer(name: &str) -> (r: Option<&'static str>)
    ensures
        r is None <==> packer_of(name@) is None,
        r matches Some(p) ==> packer_of(name@) == Some(p@),
{
    let mut k: usize = 0;
    while k < PACKER_SECTIONS.len()
        invariant
            k <= PACKER_SECTIONS@.len(),
            forall|j: int|
                0 <= j < k ==> !text::same_ignoring_ascii_case(
                    (#[trigger] PACKER_SECTIONS@[j]).0@,
                    name@,
                ),
        decreases PACKER_SECTIONS@.len() - k,
    {
        if equal_ignoring_ascii_case(PACKER_SECTIONS[k].0, name) {
            assert(packer_row_at(name@, k as int));
            assert(forall|m: int| packer_row_at(name@, m) ==> m == k);
            return Some(PACKER_SECTIONS[k].1);
        }
        k += 1;
    }
    None
}

/// Whether mainstream toolchains emit a section name.
fn is_known_name(name: &str) -> (r: bool)
    ensures
        r == known_name(name@),
{
    let mut k: usize = 0;
    while k < KNOWN_SECTIONS.len()
        invariant
            k <= KNOWN_SECTIONS@.len(),
            forall|j: int|
                0 <= j < k ==> !text::same_ignoring_ascii_case(
                    (#[trigger] KNOWN_SECTIONS@[j])@,
                    name@,
                ),
        decreases KNOWN_SECTIONS@.len() - k,
    {
        if equal_ignoring_ascii_case(KNOWN_SECTIONS[k], name) {
            assert(text::same_ignoring_ascii_case(KNOWN_SECTIONS@[k as int]@, name@));
            return true;
        }
        k += 1;
    }
    false
}

/// Whether an address lies in a section.
fn does_cover(s: &Section, address: u32) -> (r: bool)
    ensures
        r == covers(s@, address),
{
    address >= s.virtual_addr && s.virtual_size > 0 && address < s.virtual_addr.saturating_add(
        s.virtual_size,
    )
}

/// Reports one section.
fn check_section(s: &Section) -> (r: Vec<Finding>)
    ensures
        finding::models(r@) == section_findings(s@),
{
    let mut out: Vec<Finding> = Vec::new();
    assert(finding::models(out@) =~= Seq::<FindingModel>::empty());
    let writes = s.characteristics / MEM_WRITE % 2 == 1;
    let executes = s.characteristics / MEM_EXECUTE % 2 == 1;
    let mut start: String = "Section '".to_string();
    start.append(s.name.as_str());

    let rewriting = if writes && executes {
        let mut detail: String = start.clone();
        detail.append("' is marked both writable and executable.");
        Some(
            Finding::new(
                Severity::High,
                REWRITES_TITLE.to_string(),
                detail,
                REWRITES_WHY.to_string(),
                7_000,
            ),
        )
    } else {
        None
    };
    append_one(&mut out, rewriting);
    assert(finding::models(out@) =~= rewrites(s@));

    let expanding = if s.raw_size > 0 && s.virtual_size as u64 > 4 * (s.raw_size as u64)
        && s.virtual_size > 0x1000 {
        let mut detail: String = start.clone();
        detail.append("' occupies ");
        push_decimal(&mut detail, s.virtual_size as u64);
        detail.append(" bytes in memory but only ");
        push_decimal(&mut detail, s.raw_size as u64);
        detail.append(" on disk.");
        Some(
            Finding::new(
                Severity::High,
                EXPANDS_TITLE.to_string(),
                detail,
                EXPANDS_WHY.to_string(),
                5_500,
            ),
        )
    } else {
        None
    };
    append_one(&mut out, expanding);

    let absent = if s.raw_size == 0 && executes && s.virtual_size > 0 {
        let mut detail: String = start.clone();
        detail.append("' is marked executable but contains no data in the file.");
        Some(
            Finding::new(
                Severity::High,
                ABSENT_TITLE.to_string(),
                detail,
                ABSENT_WHY.to_string(),
                6_000,
            ),
        )
    } else {
        None
    };
    append_one(&mut out, absent);

    let packed = match find_packer(s.name.as_str()) {
        Some(packer) => {
            let mut title: String = "Program is compressed with ".to_string();
            title.append(packer);
            let mut detail: String = "Section name '".to_string();
            detail.append(s.name.as_str());
            detail.append("' is the signature of the ");
            detail.append(packer);
            detail.append(" packer.");
            Some(Finding::new(Severity::High, title, detail, PACKED_WHY.to_string(), 6_000))
        },
        None => None,
    };
    append_one(&mut out, packed);
    out
}

// ---------------------------------------------------------------------------
// The section table
// ---------------------------------------------------------------------------

/// What the first `k` sections of the table give to report.
pub open spec fn table_findings(data: Seq<u8>, table: int, k: nat) -> Seq<FindingModel>
    decreases k,
{
    if k == 0 {
        Seq::empty()
    } else {
        table_findings(data, table, (k - 1) as nat) + section_findings(
            section_at(data, table + 40 * (k - 1)),
        )
    }
}

/// The unrecognised names among the first `k` sections of the table.
pub open spec fn strange_names(data: Seq<u8>, table: int, k: nat) -> Seq<Seq<char>>
    decreases k,
{
    if k == 0 {
        Seq::empty()
    } else {
        let before = strange_names(data, table, (k - 1) as nat);
        let name = section_at(data, table + 40 * (k - 1)).name;
        if unrecognised(name) {
            before.push(name)
        } else {
            before
        }
    }
}

/// An address lies in one of the first `k` sections of the table.
pub open spec fn covered(data: Seq<u8>, table: int, k: nat, address: u32) -> bool {
    exists|i: int| 0 <= i < k && covers(#[trigger] section_at(data, table + 40 * i), address)
}

/// The finding about a table that does not lie within the file.
pub open spec fn truncation(present: bool) -> Seq<FindingModel> {
    if present {
        seq![
            finding::finding(
                Severity::Medium,
                TRUNCATED_TITLE@,
                TRUNCATED_DETAIL@,
                TRUNCATED_WHY@,
                5_000,
            ),
        ]
    } else {
        Seq::empty()
    }
}

/// The finding about an entry point outside every section.
pub open spec fn stray_entry(inside: bool, entry: u32) -> Seq<FindingModel> {
    if !inside && entry != 0 {
        seq![
            finding::finding(
                Severity::High,
                ENTRY_TITLE@,
                "The entry point 0x"@ + numbers::hexadecimal(entry as nat)
                    + " falls outside every section the file declares."@,
                ENTRY_WHY@,
                6_500,
            ),
        ]
    } else {
        Seq::empty()
    }
}

/// The finding about unrecognised section names: one alone says nothing.
pub open spec fn name_oddity(names: Seq<Seq<char>>) -> Seq<FindingModel> {
    if names.len() >= 2 {
        seq![
            finding::finding(
                Severity::Low,
                NAMES_TITLE@,
                numbers::decimal(names.len()) + " unrecognised section names: "@ + text::joined(
                    names,
                    ", "@,
                ),
                NAMES_WHY@,
                3_000,
            ),
        ]
    } else {
        Seq::empty()
    }
}

/// The finding about an absurd number of sections.
pub open spec fn absurd_count(n: u16) -> FindingModel {
    finding::finding(
        Severity::High,
        COUNT_TITLE@,
        "The program header declares "@ + numbers::decimal(n as nat)
            + " sections. Real programs have a handful."@,
        COUNT_WHY@,
        5_500,
    )
}

/// Everything that the `n` sections of a table and the entry point give to
/// report.
pub open spec fn sections_findings(data: Seq<u8>, table: int, n: nat, entry: u32) -> Seq<
    FindingModel,
> {
    let k = readable_sections(data, table, n as int) as nat;
    table_findings(data, table, k) + truncation(k < n) + stray_entry(
        covered(data, table, k, entry),
        entry,
    ) + name_oddity(strange_names(data, table, k))
}

/// Everything that a file gives to report as an image.
pub open spec fn image_findings(data: Seq<u8>) -> Seq<FindingModel> {
    match header_at(data) {
        Some(at) => {
            let n = declared_sections(data, at);
            if n == 0 || n > MAX_SECTIONS {
                seq![absurd_count(n)]
            } else {
                match bytes::word32(data, at + 40) {
                    Some(entry) => sections_findings(data, table_at(data, at), n as nat, entry),
                    None => Seq::empty(),
                }
            }
        },
        None => Seq::empty(),
    }
}

/// The number of sections that a sound header declares, otherwise zero.
pub open spec fn sound_section_count(data: Seq<u8>) -> int {
    match header_at(data) {
        Some(at) => {
            let n = declared_sections(data, at);
            if n > MAX_SECTIONS {
                0
            } else {
                n as int
            }
        },
        None => 0,
    }
}

/// The data is a well-formed image: it has a header, which declares a sound
/// number of sections, and the entry point and the whole section table lie
/// within the data.
pub open spec fn well_formed(data: Seq<u8>) -> bool {
    header_at(data) matches Some(at) && {
        let n = declared_sections(data, at);
        &&& 0 < n <= MAX_SECTIONS
        &&& at + 44 <= data.len()
        &&& table_at(data, at) + 40 * n <= data.len()
    }
}

/// Reports the sections of a table and the entry point.
fn check_sections(data: &[u8], table: u128, n: usize, entry: u32) -> (r: Vec<Finding>)
    requires
        n <= MAX_SECTIONS,
    ensures
        finding::models(r@) == sections_findings(data@, table as int, n as nat, entry),
{
    broadcast use text::lemma_texts_push;

    let len: usize = data.len();
    let fits: usize = if table > len as u128 {
        0
    } else {
        (len - table as usize) / 40
    };
    let k: usize = if fits < n {
        fits
    } else {
        n
    };
    let mut out: Vec<Finding> = Vec::new();
    let mut names: Vec<String> = Vec::new();
    let mut inside: bool = false;
    assert(finding::models(out@) =~= table_findings(data@, table as int, 0));
    assert(text::texts(names@) =~= strange_names(data@, table as int, 0));
    let mut i: usize = 0;
    while i < k
        invariant
            i <= k,
            len == data@.len(),
            k > 0 ==> table + 40 * k <= len,
            finding::models(out@) == table_findings(data@, table as int, i as nat),
            text::texts(names@) == strange_names(data@, table as int, i as nat),
            inside == covered(data@, table as int, i as nat, entry),
        decreases k - i,
    {
        let s = read_section(data, table as usize + 40 * i);
        assert(s@ == section_at(data@, table + 40 * i));
        if does_cover(&s, entry) {
            assert(covers(section_at(data@, table + 40 * i), entry));
            inside = true;
        }
        append_all(&mut out, check_section(&s));
        if find_packer(s.name.as_str()).is_none() && !s.name.as_str().is_empty() && !is_known_name(
            s.name.as_str(),
        ) {
            names.push(s.name.clone());
        }
        i += 1;
    }
    let truncated = if k < n {
        Some(
            Finding::new(
                Severity::Medium,
                TRUNCATED_TITLE.to_string(),
                TRUNCATED_DETAIL.to_string(),
                TRUNCATED_WHY.to_string(),
                5_000,
            ),
        )
    } else {
        None
    };
    append_one(&mut out, truncated);
    let stray = if !inside && entry != 0 {
        let mut detail: String = "The entry point 0x".to_string();
        push_hexadecimal(&mut detail, entry as u64);
        detail.append(" falls outside every section the file declares.");
        Some(
            Finding::new(
                Severity::High,
                ENTRY_TITLE.to_string(),
                detail,
                ENTRY_WHY.to_string(),
                6_500,
            ),
        )
    } else {
        None
    };
    append_one(&mut out, stray);
    assert(text::texts(names@).len() == names@.len());
    let odd = if names.len() >= 2 {
        let mut detail: String = String::new();
        push_decimal(&mut detail, names.len() as u64);
        assert(detail@ =~= numbers::decimal(names@.len()));
        detail.append(" unrecognised section names: ");
        detail.append(join(names.as_slice(), ", ").as_str());
        Some(
            Finding::new(
                Severity::Low,
                NAMES_TITLE.to_string(),
                detail,
                NAMES_WHY.to_string(),
                3_000,
            ),
        )
    } else {
        None
    };
    append_one(&mut out, odd);
    out
}

/// A result with these findings.
fn report(is_pe: bool, section_count: usize, findings: Vec<Finding>) -> (r: PeResult)
    ensures
        r.is_pe == is_pe,
        r.section_count == section_count,
        finding::models(r.findings@) == finding::models(findings@),
        r.flagged == (finding::models(findings@).len() > 0),
        text::texts(r.flags@) == finding::one_line_texts(finding::models(findings@)),
        r.risk == finding::worst_risk(finding::models(findings@)),
{
    let flags = one_lines(findings.as_slice());
    let risk: i64 = worst(findings.as_slice());
    PeResult { is_pe, flagged: findings.len() > 0, flags, findings, risk, section_count }
}

/// Analyses a complete file as a PE image.
pub fn analyse(data: &[u8]) -> (r: PeResult)
    ensures
        r.is_pe == well_formed(data@),
        r.section_count == sound_section_count(data@),
        finding::models(r.findings@) == image_findings(data@),
        r.flagged == (image_findings(data@).len() > 0),
        text::texts(r.flags@) == finding::one_line_texts(image_findings(data@)),
        r.risk == finding::worst_risk(image_findings(data@)),
{
    let none: Vec<Finding> = Vec::new();
    assert(finding::models(none@) =~= Seq::<FindingModel>::empty());
    let len: usize = data.len();
    let at: usize = match find_header(data) {
        Some(at) => at,
        None => return report(false, 0, none),
    };
    match (u16_at(data, at + 6), u16_at(data, at + 20)) {
        (Some(n), Some(optional_size)) => {
            if n == 0 || n > MAX_SECTIONS {
                let mut detail: String = "The program header declares ".to_string();
                push_decimal(&mut detail, n as u64);
                detail.append(" sections. Real programs have a handful.");
                let mut findings: Vec<Finding> = Vec::new();
                findings.push(
                    Finding::new(
                        Severity::High,
                        COUNT_TITLE.to_string(),
                        detail,
                        COUNT_WHY.to_string(),
                        5_500,
                    ),
                );
                assert(finding::models(findings@) =~= seq![absurd_count(n)]);
                return report(false, 0, findings);
            }
            if len - at < 44 {
                return report(false, n as usize, none);
            }
            let entry: u32 = match u32_at(data, at + 40) {
                Some(entry) => entry,
                None => return report(false, n as usize, none),
            };
            let table: u128 = at as u128 + 24 + optional_size as u128;
            let complete = table + 40 * (n as u128) <= len as u128;
            report(complete, n as usize, check_sections(data, table, n as usize, entry))
        },
        _ => report(false, 0, none),
    }
}

// ---------------------------------------------------------------------------
// Laws
// ---------------------------------------------------------------------------

/// A file without a PE header is not reported as an image, and no more than
/// `MAX_SECTIONS` sections are read of one.
pub proof fn law_reading_is_bounded(data: Seq<u8>)
    ensures
        header_at(data) is None ==> image_findings(data).len() == 0,
        0 <= sound_section_count(data) <= MAX_SECTIONS,
{
}

/// A malformed header is none of an image: where the number of sections is
/// absurd, or the entry point or the section table does not lie within the data,
/// the file is no well-formed image, though what is wrong with it is reported.
pub proof fn law_a_malformed_header_is_no_image(data: Seq<u8>, at: int)
    requires
        header_at(data) == Some(at),
        declared_sections(data, at) == 0 || declared_sections(data, at) > MAX_SECTIONS
            || bytes::word32(data, at + 40) is None || readable_sections(
            data,
            table_at(data, at),
            declared_sections(data, at) as int,
        ) < declared_sections(data, at),
    ensures
        !well_formed(data),
        bytes::word32(data, at + 40) is Some ==> image_findings(data).len() > 0,
{
}

/// An absurd number of sections is reported, and nothing else is read.
pub proof fn law_an_absurd_count_is_reported(data: Seq<u8>, at: int)
    requires
        header_at(data) == Some(at),
        declared_sections(data, at) == 0 || declared_sections(data, at) > MAX_SECTIONS,
    ensures
        image_findings(data) == seq![absurd_count(declared_sections(data, at))],
{
}

proof fn lemma_quiet_sections(data: Seq<u8>, table: int, k: nat)
    requires
        forall|i: int|
            0 <= i < k ==> section_findings(#[trigger] section_at(data, table + 40 * i)).len() == 0,
    ensures
        table_findings(data, table, k).len() == 0,
    decreases k,
{
    if k > 0 {
        assert(section_findings(section_at(data, table + 40 * (k - 1))).len() == 0);
        lemma_quiet_sections(data, table, (k - 1) as nat);
    }
}

/// An image is not reported where its table is complete, no section gives
/// anything away, the entry point lies in a section, and no two section names
/// are unrecognised.
pub proof fn law_an_ordinary_image_is_not_reported(data: Seq<u8>, table: int, n: nat, entry: u32)
    requires
        readable_sections(data, table, n as int) == n,
        forall|i: int|
            0 <= i < n ==> section_findings(#[trigger] section_at(data, table + 40 * i)).len() == 0,
        covered(data, table, n, entry) || entry == 0,
        strange_names(data, table, n).len() < 2,
    ensures
        sections_findings(data, table, n, entry).len() == 0,
{
    lemma_quiet_sections(data, table, n);
}

/// What a section gives away is reported, whichever section it is.
pub proof fn law_no_section_is_passed_over(data: Seq<u8>, table: int, k: nat, i: int, j: int)
    requires
        0 <= i < k,
        0 <= j < section_findings(section_at(data, table + 40 * i)).len(),
    ensures
        table_findings(data, table, k).contains(
            section_findings(section_at(data, table + 40 * i))[j],
        ),
    decreases k,
{
    let before = table_findings(data, table, (k - 1) as nat);
    let last = section_findings(section_at(data, table + 40 * (k - 1)));
    if i == k - 1 {
        assert((before + last)[before.len() + j] == last[j]);
    } else {
        law_no_section_is_passed_over(data, table, (k - 1) as nat, i, j);
        let f = section_findings(section_at(data, table + 40 * i))[j];
        let m = choose|m: int| 0 <= m < before.len() && before[m] == f;
        assert((before + last)[m] == f);
    }
}

proof fn lemma_table_is_bounded(data: Seq<u8>, table: int, k: nat)
    ensures
        finding::bounded(table_findings(data, table, k)),
    decreases k,
{
    if k > 0 {
        lemma_table_is_bounded(data, table, (k - 1) as nat);
    }
}

/// The risks of the findings are risks.
pub proof fn law_image_risks_are_bounded(data: Seq<u8>)
    ensures
        finding::bounded(image_findings(data)),
{
    if let Some(at) = header_at(data) {
        let n = declared_sections(data, at);
        let table = table_at(data, at);
        lemma_table_is_bounded(data, table, readable_sections(data, table, n as int) as nat);
    }
}

/// A file has a header exactly where it starts as a program of the old kind, and
/// the place that it names lies behind that start, within the file, and shows
/// the mark of the new kind.
pub proof fn law_where_a_header_stands(data: Seq<u8>, at: int)
    ensures
        header_at(data) == Some(at) <==> {
            &&& data.len() >= 64
            &&& data[0] == 0x4D && data[1] == 0x5A
            &&& at == data[0x3C] + 0x100 * data[0x3D] + 0x1_0000 * data[0x3E] + 0x100_0000
                * data[0x3F]
            &&& 64 <= at <= data.len() - 24
            &&& data[at] == 0x50 && data[at + 1] == 0x45 && data[at + 2] == 0 && data[at + 3] == 0
        },
{
    assert(sequences::begins_with(data, DOS_HEADER@) <==> data.len() >= 2 && data[0] == 0x4D
        && data[1] == 0x5A) by {
        if data.len() >= 2 {
            assert(data.subrange(0, 2)[0] == data[0] && data.subrange(0, 2)[1] == data[1]);
            if data[0] == 0x4D && data[1] == 0x5A {
                assert(data.subrange(0, 2) =~= DOS_HEADER@);
            }
        }
    }
    if data.len() >= 64 {
        let place = bytes::word32(data, 0x3C)->0 as int;
        if 64 <= place <= data.len() - 24 {
            let part = data.subrange(place, place + 4);
            assert(part[0] == data[place] && part[1] == data[place + 1] && part[2] == data[place
                + 2] && part[3] == data[place + 3]);
            if data[place] == 0x50 && data[place + 1] == 0x45 && data[place + 2] == 0 && data[place
                + 3] == 0 {
                assert(part =~= PE_HEADER@);
            }
        }
    }
}

/// The file holds a finding of this severity and risk as an image.
pub open spec fn image_shows(data: Seq<u8>, severity: Severity, risk: int) -> bool {
    exists|i: int|
        0 <= i < image_findings(data).len() && (#[trigger] image_findings(data)[i]).severity
            == severity && image_findings(data)[i].risk == risk
}

/// What an image shows, its risk is at least.
pub proof fn law_what_an_image_shows_counts(data: Seq<u8>, severity: Severity, risk: int)
    requires
        image_shows(data, severity, risk),
    ensures
        finding::worst_risk(image_findings(data)) >= risk,
{
    let i = choose|i: int|
        0 <= i < image_findings(data).len() && (#[trigger] image_findings(data)[i]).severity
            == severity && image_findings(data)[i].risk == risk;
    finding::lemma_worst_is_bound(image_findings(data), i);
}

/// A finding of a section is shown.
proof fn lemma_section_is_shown(data: Seq<u8>, at: int, i: int, j: int)
    requires
        header_at(data) == Some(at),
        0 < declared_sections(data, at) <= 96,
        at + 44 <= data.len(),
        0 <= i < declared_sections(data, at),
        table_at(data, at) + 40 * (i + 1) <= data.len(),
        0 <= j < section_findings(section_at(data, table_at(data, at) + 40 * i)).len(),
    ensures
        ({
            let f = section_findings(section_at(data, table_at(data, at) + 40 * i))[j];
            image_shows(data, f.severity, f.risk)
        }),
{
    let table = table_at(data, at);
    let n = declared_sections(data, at) as int;
    let k = readable_sections(data, table, n);
    assert(i < k);
    law_no_section_is_passed_over(data, table, k as nat, i, j);
    let part = table_findings(data, table, k as nat);
    let f = section_findings(section_at(data, table + 40 * i))[j];
    let m = choose|m: int| 0 <= m < part.len() && part[m] == f;
    assert(image_findings(data)[m] == f);
}

/// Every section of an image counts, wherever it stands in the table: one that
/// is writable and executable, one that swells in memory, one that holds code
/// that is not on disk, and one that a packer named.
pub proof fn law_suspicious_sections_are_reported(data: Seq<u8>, at: int, i: int)
    requires
        header_at(data) == Some(at),
        0 < bytes::word16(data, at + 6)->0 <= 96,
        at + 44 <= data.len(),
        0 <= i < bytes::word16(data, at + 6)->0,
        at + 24 + bytes::word16(data, at + 20)->0 + 40 * (i + 1) <= data.len(),
    ensures
        ({
            let off = at + 24 + bytes::word16(data, at + 20)->0 + 40 * i;
            let in_memory = bytes::word32(data, off + 8)->0;
            let on_disk = bytes::word32(data, off + 16)->0;
            let flags = bytes::word32(data, off + 36)->0;
            let writes = flags >= 0x8000_0000;
            let runs = flags / 0x2000_0000 % 2 == 1;
            &&& writes && runs ==> image_shows(data, Severity::High, 7_000)
            &&& on_disk > 0 && in_memory > 4 * on_disk && in_memory > 4_096 ==> image_shows(
                data,
                Severity::High,
                5_500,
            )
            &&& on_disk == 0 && runs && in_memory > 0 ==> image_shows(data, Severity::High, 6_000)
            &&& packer_of(name_at(data, off, 8)) is Some ==> image_shows(
                data,
                Severity::High,
                6_000,
            )
        }),
{
    let s = section_at(data, table_at(data, at) + 40 * i);
    let a = rewrites(s);
    let b = expansion(s);
    let c = absence(s);
    let d = packing(s);
    if a.len() > 0 {
        assert(section_findings(s)[0] == a[0]);
        lemma_section_is_shown(data, at, i, 0);
    }
    if b.len() > 0 {
        assert(section_findings(s)[a.len() as int] == b[0]);
        lemma_section_is_shown(data, at, i, a.len() as int);
    }
    if c.len() > 0 {
        assert(section_findings(s)[(a.len() + b.len()) as int] == c[0]);
        lemma_section_is_shown(data, at, i, (a.len() + b.len()) as int);
    }
    if d.len() > 0 {
        assert(section_findings(s)[(a.len() + b.len() + c.len()) as int] == d[0]);
        lemma_section_is_shown(data, at, i, (a.len() + b.len() + c.len()) as int);
    }
}

/// An ordinary section gives nothing to report: it is not both writable and
/// executable, it does not swell, its code is on disk, and no packer named it.
pub proof fn law_an_ordinary_section_is_not_reported(s: SectionModel)
    requires
        !(s.characteristics >= 0x8000_0000 && s.characteristics / 0x2000_0000 % 2 == 1),
        s.raw_size == 0 || s.virtual_size <= 4 * s.raw_size || s.virtual_size <= 4_096,
        s.raw_size > 0 || s.characteristics / 0x2000_0000 % 2 == 0 || s.virtual_size == 0,
        packer_of(s.name) is None,
    ensures
        section_findings(s).len() == 0,
{
}

/// A malformed table and a stray entry point count as well: fewer sections in
/// the file than declared, or execution that starts in none of them.
pub proof fn law_a_broken_table_is_reported(data: Seq<u8>, at: int)
    requires
        header_at(data) == Some(at),
        0 < bytes::word16(data, at + 6)->0 <= 96,
        at + 44 <= data.len(),
    ensures
        ({
            let n = bytes::word16(data, at + 6)->0;
            let table = at + 24 + bytes::word16(data, at + 20)->0;
            let entry = bytes::word32(data, at + 40)->0;
            &&& table + 40 * n > data.len() ==> image_shows(data, Severity::Medium, 5_000)
            &&& entry != 0 && (forall|i: int|
                0 <= i < n && table + 40 * (i + 1) <= data.len() ==> !({
                    let s = #[trigger] section_at(data, table + 40 * i);
                    s.virtual_size > 0 && s.virtual_addr <= entry && entry < s.virtual_addr
                        + s.virtual_size
                })) ==> image_shows(data, Severity::High, 6_500)
        }),
{
    let n = declared_sections(data, at);
    let table = table_at(data, at);
    let entry = bytes::word32(data, at + 40)->0;
    let k = readable_sections(data, table, n as int) as nat;
    let a = table_findings(data, table, k);
    let b = truncation(k < n);
    let c = stray_entry(covered(data, table, k, entry), entry);
    if table + 40 * n > data.len() {
        assert(image_findings(data)[a.len() as int] == b[0]);
    }
    if c.len() > 0 {
        assert(image_findings(data)[(a.len() + b.len()) as int] == c[0]);
    }
    if covered(data, table, k, entry) {
        let i = choose|i: int|
            0 <= i < k && covers(#[trigger] section_at(data, table + 40 * i), entry);
        assert(table + 40 * (i + 1) <= data.len());
    }
}

/// An entry point that lies in a section is not called stray.
pub proof fn law_a_covered_entry_is_in_order(s: SectionModel, entry: u32)
    requires
        s.virtual_addr <= entry,
        entry < s.virtual_addr + s.virtual_size,
        entry < u32::MAX,
    ensures
        covers(s, entry),
        stray_entry(true, entry).len() == 0,
{
}

/// An absurd number of sections is a high risk by itself.
pub proof fn law_an_absurd_count_is_a_high_risk(data: Seq<u8>, at: int)
    requires
        header_at(data) == Some(at),
        bytes::word16(data, at + 6)->0 == 0 || bytes::word16(data, at + 6)->0 > 96,
    ensures
        image_findings(data).len() == 1,
        image_shows(data, Severity::High, 5_500),
{
    assert(image_findings(data)[0].risk == 5_500);
}

proof fn lemma_strange_name_is_listed(data: Seq<u8>, table: int, k: nat, i: int)
    requires
        0 <= i < k,
        unrecognised(section_at(data, table + 40 * i).name),
    ensures
        strange_names(data, table, k).len() >= 1,
        strange_names(data, table, k).len() >= strange_names(data, table, i as nat).len() + 1,
    decreases k,
{
    if i < k - 1 {
        lemma_strange_name_is_listed(data, table, (k - 1) as nat, i);
    }
}

/// Two section names that no toolchain emits are reported, though they weigh
/// little.
pub proof fn law_strange_names_are_reported(data: Seq<u8>, at: int, i: int, j: int)
    requires
        header_at(data) == Some(at),
        0 < declared_sections(data, at) <= 96,
        at + 44 <= data.len(),
        0 <= i < j < declared_sections(data, at),
        table_at(data, at) + 40 * (j + 1) <= data.len(),
        unrecognised(section_at(data, table_at(data, at) + 40 * i).name),
        unrecognised(section_at(data, table_at(data, at) + 40 * j).name),
    ensures
        image_shows(data, Severity::Low, 3_000),
{
    let n = declared_sections(data, at);
    let table = table_at(data, at);
    let entry = bytes::word32(data, at + 40)->0;
    let k = readable_sections(data, table, n as int) as nat;
    lemma_strange_name_is_listed(data, table, j as nat, i);
    lemma_strange_name_is_listed(data, table, k, j);
    let a = table_findings(data, table, k);
    let b = truncation(k < n);
    let c = stray_entry(covered(data, table, k, entry), entry);
    let d = name_oddity(strange_names(data, table, k));
    assert(image_findings(data)[(a.len() + b.len() + c.len()) as int] == d[0]);
}

/// Some row of the packers is the first.
proof fn lemma_some_packer(name: Seq<char>, k: int)
    requires
        0 <= k < PACKER_SECTIONS@.len(),
        text::same_ignoring_ascii_case(PACKER_SECTIONS@[k].0@, name),
    ensures
        packer_of(name) is Some,
    decreases k,
{
    if forall|j: int|
        0 <= j < k ==> !text::same_ignoring_ascii_case(
            (#[trigger] PACKER_SECTIONS@[j]).0@,
            name,
        ) {
        assert(packer_row_at(name, k));
    } else {
        let j = choose|j: int|
            0 <= j < k && text::same_ignoring_ascii_case(
                (#[trigger] PACKER_SECTIONS@[j]).0@,
                name,
            );
        lemma_some_packer(name, j);
    }
}

/// The section names of well-known packers are recognised in any case.
pub proof fn law_packers_are_recognised(name: Seq<char>, own: Seq<char>)
    requires
        ({
            ||| own == "UPX0"@
            ||| own == "UPX1"@
            ||| own == "UPX2"@
            ||| own == ".aspack"@
            ||| own == ".adata"@
            ||| own == ".themida"@
            ||| own == ".winlice"@
            ||| own == ".vmp0"@
            ||| own == ".vmp1"@
            ||| own == ".vmp2"@
            ||| own == ".petite"@
            ||| own == ".MPRESS1"@
            ||| own == ".MPRESS2"@
            ||| own == "nsp0"@
            ||| own == "nsp1"@
            ||| own == ".enigma1"@
            ||| own == ".enigma2"@
            ||| own == "PELock"@
            ||| own == ".packed"@
        }),
        text::ascii_lowercase(name) == text::ascii_lowercase(own),
    ensures
        packer_of(name) is Some,
        !unrecognised(name),
{
    let table = PACKER_SECTIONS@;
    assert(table.len() == 19);
    if own == "UPX0"@ {
        assert(table[0].0@ == own);
        lemma_some_packer(name, 0);
    }
    if own == "UPX1"@ {
        assert(table[1].0@ == own);
        lemma_some_packer(name, 1);
    }
    if own == "UPX2"@ {
        assert(table[2].0@ == own);
        lemma_some_packer(name, 2);
    }
    if own == ".aspack"@ {
        assert(table[3].0@ == own);
        lemma_some_packer(name, 3);
    }
    if own == ".adata"@ {
        assert(table[4].0@ == own);
        lemma_some_packer(name, 4);
    }
    if own == ".themida"@ {
        assert(table[5].0@ == own);
        lemma_some_packer(name, 5);
    }
    if own == ".winlice"@ {
        assert(table[6].0@ == own);
        lemma_some_packer(name, 6);
    }
    if own == ".vmp0"@ {
        assert(table[7].0@ == own);
        lemma_some_packer(name, 7);
    }
    if own == ".vmp1"@ {
        assert(table[8].0@ == own);
        lemma_some_packer(name, 8);
    }
    if own == ".vmp2"@ {
        assert(table[9].0@ == own);
        lemma_some_packer(name, 9);
    }
    if own == ".petite"@ {
        assert(table[10].0@ == own);
        lemma_some_packer(name, 10);
    }
    if own == ".MPRESS1"@ {
        assert(table[11].0@ == own);
        lemma_some_packer(name, 11);
    }
    if own == ".MPRESS2"@ {
        assert(table[12].0@ == own);
        lemma_some_packer(name, 12);
    }
    if own == "nsp0"@ {
        assert(table[13].0@ == own);
        lemma_some_packer(name, 13);
    }
    if own == "nsp1"@ {
        assert(table[14].0@ == own);
        lemma_some_packer(name, 14);
    }
    if own == ".enigma1"@ {
        assert(table[15].0@ == own);
        lemma_some_packer(name, 15);
    }
    if own == ".enigma2"@ {
        assert(table[16].0@ == own);
        lemma_some_packer(name, 16);
    }
    if own == "PELock"@ {
        assert(table[17].0@ == own);
        lemma_some_packer(name, 17);
    }
    if own == ".packed"@ {
        assert(table[18].0@ == own);
        lemma_some_packer(name, 18);
    }
}

/// The section names of mainstream toolchains are recognised in any case.
pub proof fn law_toolchain_names_are_recognised(name: Seq<char>, own: Seq<char>)
    requires
        ({
            ||| own == ".text"@
            ||| own == ".data"@
            ||| own == ".rdata"@
            ||| own == ".bss"@
            ||| own == ".idata"@
            ||| own == ".edata"@
            ||| own == ".pdata"@
            ||| own == ".xdata"@
            ||| own == ".rsrc"@
            ||| own == ".reloc"@
            ||| own == ".tls"@
            ||| own == ".debug"@
            ||| own == ".didat"@
            ||| own == ".gfids"@
            ||| own == ".sxdata"@
            ||| own == ".CRT"@
            ||| own == ".INIT"@
            ||| own == ".00cfg"@
            ||| own == ".textbss"@
            ||| own == ".drectve"@
            ||| own == ".symtab"@
            ||| own == ".shared"@
            ||| own == ".rodata"@
            ||| own == ".eh_fram"@
            ||| own == ".init"@
            ||| own == ".fini"@
        }),
        text::ascii_lowercase(name) == text::ascii_lowercase(own),
    ensures
        known_name(name),
        !unrecognised(name),
{
    let list = KNOWN_SECTIONS@;
    assert(list.len() == 26);
    if own == ".text"@ {
        assert(list[0]@ == own);
    }
    if own == ".data"@ {
        assert(list[1]@ == own);
    }
    if own == ".rdata"@ {
        assert(list[2]@ == own);
    }
    if own == ".bss"@ {
        assert(list[3]@ == own);
    }
    if own == ".idata"@ {
        assert(list[4]@ == own);
    }
    if own == ".edata"@ {
        assert(list[5]@ == own);
    }
    if own == ".pdata"@ {
        assert(list[6]@ == own);
    }
    if own == ".xdata"@ {
        assert(list[7]@ == own);
    }
    if own == ".rsrc"@ {
        assert(list[8]@ == own);
    }
    if own == ".reloc"@ {
        assert(list[9]@ == own);
    }
    if own == ".tls"@ {
        assert(list[10]@ == own);
    }
    if own == ".debug"@ {
        assert(list[11]@ == own);
    }
    if own == ".didat"@ {
        assert(list[12]@ == own);
    }
    if own == ".gfids"@ {
        assert(list[13]@ == own);
    }
    if own == ".sxdata"@ {
        assert(list[14]@ == own);
    }
    if own == ".CRT"@ {
        assert(list[15]@ == own);
    }
    if own == ".INIT"@ {
        assert(list[16]@ == own);
    }
    if own == ".00cfg"@ {
        assert(list[17]@ == own);
    }
    if own == ".textbss"@ {
        assert(list[18]@ == own);
    }
    if own == ".drectve"@ {
        assert(list[19]@ == own);
    }
    if own == ".symtab"@ {
        assert(list[20]@ == own);
    }
    if own == ".shared"@ {
        assert(list[21]@ == own);
    }
    if own == ".rodata"@ {
        assert(list[22]@ == own);
    }
    if own == ".eh_fram"@ {
        assert(list[23]@ == own);
    }
    if own == ".init"@ {
        assert(list[24]@ == own);
    }
    if own == ".fini"@ {
        assert(list[25]@ == own);
    }
}

/// A section name is what stands before the first zero byte, a character for a
/// byte, eight bytes at most.
pub proof fn law_a_section_name_ends_at_a_zero(data: Seq<u8>, off: int, width: nat)
    requires
        0 <= off,
        off + width <= data.len(),
    ensures
        name_at(data, off, width).len() <= width,
        forall|i: int|
            0 <= i < name_at(data, off, width).len() ==> #[trigger] name_at(data, off, width)[i]
                == data[off + i] as char && data[off + i] != 0,
        name_at(data, off, width).len() < width ==> data[off + name_at(data, off, width).len()]
            == 0,
    decreases width,
{
    if width > 0 && data[off] != 0 {
        law_a_section_name_ends_at_a_zero(data, off + 1, (width - 1) as nat);
        let rest = name_at(data, off + 1, (width - 1) as nat);
        let all = name_at(data, off, width);
        assert forall|i: int| 0 <= i < all.len() implies #[trigger] all[i] == data[off + i] as char
            && data[off + i] != 0 by {
            if i > 0 {
                assert(all[i] == rest[i - 1]);
                assert(rest[i - 1] == data[off + 1 + (i - 1)] as char);
            }
        }
    }
}

/// A section header has its name in its first eight bytes, then how large the
/// section is in memory, where it stands there, and how large it is on disk; its
/// flags close the forty bytes.
pub proof fn law_the_layout_of_a_section_header(data: Seq<u8>, off: int)
    requires
        0 <= off,
        off + 40 <= data.len(),
    ensures
        section_at(data, off).name == name_at(data, off, 8),
        bytes::word32(data, off + 8) == Some(section_at(data, off).virtual_size),
        bytes::word32(data, off + 12) == Some(section_at(data, off).virtual_addr),
        bytes::word32(data, off + 16) == Some(section_at(data, off).raw_size),
        bytes::word32(data, off + 36) == Some(section_at(data, off).characteristics),
{
}

/// Only the names of packers are called that.
pub proof fn law_only_packers_are_called_packers(name: Seq<char>)
    requires
        packer_of(name) is Some,
    ensures
        exists|k: int|
            0 <= k < PACKER_SECTIONS@.len() && text::ascii_lowercase(
                (#[trigger] PACKER_SECTIONS@[k]).0@,
            ) == text::ascii_lowercase(name),
{
    let k = choose|k: int| packer_row_at(name, k);
    assert(text::ascii_lowercase(PACKER_SECTIONS@[k].0@) == text::ascii_lowercase(name));
}

/// Only the names that toolchains emit are recognised as theirs.
pub proof fn law_only_toolchain_names_are_known(name: Seq<char>)
    requires
        known_name(name),
    ensures
        exists|k: int|
            0 <= k < KNOWN_SECTIONS@.len() && text::ascii_lowercase(
                (#[trigger] KNOWN_SECTIONS@[k])@,
            ) == text::ascii_lowercase(name),
{
    let k = choose|k: int|
        0 <= k < KNOWN_SECTIONS@.len() && text::same_ignoring_ascii_case(
            (#[trigger] KNOWN_SECTIONS@[k])@,
            name,
        );
    assert(text::ascii_lowercase(KNOWN_SECTIONS@[k]@) == text::ascii_lowercase(name));
}

proof fn lemma_no_strange_name(data: Seq<u8>, table: int, k: nat)
    requires
        forall|i: int|
            0 <= i < k ==> known_name((#[trigger] section_at(data, table + 40 * i)).name),
    ensures
        strange_names(data, table, k).len() == 0,
    decreases k,
{
    if k > 0 {
        lemma_no_strange_name(data, table, (k - 1) as nat);
        assert(known_name(section_at(data, table + 40 * (k - 1)).name));
    }
}

/// An ordinary program is an image and is not reported: its table is complete,
/// every section has a name that a toolchain emits and is none of a packer's,
/// is not both writable and executable, does not swell and has its code on disk,
/// and the entry point lies in one of them, whichever it is.
pub proof fn law_an_ordinary_program_is_not_reported(data: Seq<u8>, at: int, entered: int)
    requires
        header_at(data) == Some(at),
        0 < bytes::word16(data, at + 6)->0 <= 96,
        at + 44 <= data.len(),
        at + 24 + bytes::word16(data, at + 20)->0 + 40 * bytes::word16(data, at + 6)->0
            <= data.len(),
        0 <= entered < bytes::word16(data, at + 6)->0,
        ({
            let s = section_at(
                data,
                at + 24 + bytes::word16(data, at + 20)->0 + 40 * entered,
            );
            let entry = bytes::word32(data, at + 40)->0;
            s.virtual_addr <= entry && entry < s.virtual_addr + s.virtual_size && entry < u32::MAX
        }),
        forall|i: int|
            0 <= i < bytes::word16(data, at + 6)->0 ==> {
                let s = #[trigger] section_at(data, table_at(data, at) + 40 * i);
                &&& known_name(s.name)
                &&& packer_of(s.name) is None
                &&& !(s.characteristics >= 0x8000_0000 && s.characteristics / 0x2000_0000 % 2 == 1)
                &&& s.raw_size == 0 || s.virtual_size <= 4 * s.raw_size || s.virtual_size <= 4_096
                &&& s.raw_size > 0 || s.characteristics / 0x2000_0000 % 2 == 0 || s.virtual_size
                    == 0
            },
    ensures
        image_findings(data).len() == 0,
        well_formed(data),
{
    let n = declared_sections(data, at) as nat;
    let table = table_at(data, at);
    let entry = bytes::word32(data, at + 40)->0;
    assert(readable_sections(data, table, n as int) == n);
    assert forall|i: int| 0 <= i < n implies section_findings(
        #[trigger] section_at(data, table + 40 * i),
    ).len() == 0 by {
        law_an_ordinary_section_is_not_reported(section_at(data, table + 40 * i));
    }
    assert(covers(section_at(data, table + 40 * entered), entry));
    lemma_no_strange_name(data, table, n);
    law_an_ordinary_image_is_not_reported(data, table, n, entry);
}

} // verus!
