//! Auto-execution: files that run something when opened.
//!
//! The question here is what happens if the user double-clicks the file. Many
//! formats are no programs, are not taken for programs, and run code anyway:
//! shortcuts carry a command line, Office documents carry macros, script and
//! disc-image formats survive because they are not called `.exe`. The weights
//! reflect how unusual it is to receive the format from the internet, not how
//! much damage it could do.
use crate::bytes;
use crate::bytes::{pattern_bytes, u16_at, u32_at};
use crate::scanner::archive;
use crate::scanner::archive::{list_entries, EntryModel, ZipEntry};
use crate::scanner::finding;
use crate::scanner::finding::{
    append_all, append_one, one_lines, severity_for, worst, Finding, FindingModel, Severity,
};
use crate::sequences;
use crate::sequences::{equal, slice_to_vec};
use crate::text;
use crate::text::{
    base_start, chars_of, contains, equal_ignoring_ascii_case, find_char, from_utf8_lossy, is_one_of,
    join, lines_of, quote, same, starts_with, string_of, substring, tail_extension_of, trim,
    truncate,
};
use vstd::prelude::*;
use vstd::slice::slice_subrange;

verus! {

// ---------------------------------------------------------------------------
// Windows shell links
// ---------------------------------------------------------------------------

/// The parts of a shortcut worth reporting.
#[derive(Debug)]
pub struct ShellLink {
    pub relative_path: Option<String>,
    pub working_dir: Option<String>,
    pub arguments: Option<String>,
    pub icon_location: Option<String>,
    /// The window starts minimised and inactive.
    pub starts_hidden: bool,
}

/// What a shortcut says.
pub struct LinkModel {
    pub relative_path: Option<Seq<char>>,
    pub working_dir: Option<Seq<char>>,
    pub arguments: Option<Seq<char>>,
    pub icon_location: Option<Seq<char>>,
    pub starts_hidden: bool,
}

impl View for ShellLink {
    type V = LinkModel;

    open spec fn view(&self) -> LinkModel {
        LinkModel {
            relative_path: text::text_of(self.relative_path),
            working_dir: text::text_of(self.working_dir),
            arguments: text::text_of(self.arguments),
            icon_location: text::text_of(self.icon_location),
            starts_hidden: self.starts_hidden,
        }
    }
}

/// The size of the header of a shell link, which its first field states.
pub const LINK_HEADER_SIZE: u32 = 0x4C;

/// The class identifier of a shell link.
pub const LINK_CLSID: [u8; 16] = [
    0x01, 0x14, 0x02, 0x00, 0x00, 0x00, 0x00, 0x00, 0xC0, 0x00, 0x00, 0x00, 0x00, 0x00, 0x00, 0x46,
];

/// Bit `n` of the link flags, which are numbered from the low end; `weight` is
/// two to the power of `n`.
pub open spec fn flag(flags: u32, weight: u32) -> bool {
    flags / weight % 2 == 1
}

/// A target identifier list follows the header.
pub const HAS_TARGET_IDLIST: u32 = 1;

/// A link information block follows.
pub const HAS_LINK_INFO: u32 = 2;

/// A name string follows.
pub const HAS_NAME: u32 = 4;

/// A relative path follows.
pub const HAS_RELATIVE_PATH: u32 = 8;

/// A working directory follows.
pub const HAS_WORKING_DIR: u32 = 16;

/// Command-line arguments follow.
pub const HAS_ARGUMENTS: u32 = 32;

/// An icon location follows.
pub const HAS_ICON_LOCATION: u32 = 64;

/// Strings are stored as UTF-16.
pub const IS_UNICODE: u32 = 128;

/// The window mode "minimised, not active".
pub const SHOW_MINIMISED: u32 = 7;

/// The 16-bit code units that bytes hold, low byte first.
pub open spec fn code_units(raw: Seq<u8>) -> Seq<u16> {
    Seq::new((raw.len() / 2) as nat, |i: int| (raw[2 * i] + 0x100 * raw[2 * i + 1]) as u16)
}

/// The text that the bytes of a string hold.
pub open spec fn link_text(raw: Seq<u8>, unicode: bool) -> Seq<char> {
    if unicode {
        text::utf16_lossy(code_units(raw))
    } else {
        text::utf8_lossy(raw)
    }
}

/// The string at offset `off`, and where reading goes on behind it; nothing
/// where the string does not lie within the data.
pub open spec fn string_at(data: Seq<u8>, off: int, unicode: bool) -> Option<(Seq<char>, int)> {
    match bytes::word16(data, off) {
        Some(count) => {
            let len = if unicode {
                2 * count
            } else {
                count as int
            };
            if off + 2 + len <= data.len() {
                Some(
                    (link_text(data.subrange(off + 2, off + 2 + len), unicode), off + 2 + len),
                )
            } else {
                None
            }
        },
        None => None,
    }
}

/// The string at offset `off` if it is present at all, and where reading goes
/// on; nothing where it is present and does not lie within the data.
pub open spec fn string_if(present: bool, data: Seq<u8>, off: int, unicode: bool) -> Option<
    (Option<Seq<char>>, int),
> {
    if !present {
        Some((None, off))
    } else {
        match string_at(data, off, unicode) {
            Some((s, next)) => Some((Some(s), next)),
            None => None,
        }
    }
}

/// The data starts with the header of a shell link.
pub open spec fn is_link(data: Seq<u8>) -> bool {
    &&& data.len() >= LINK_HEADER_SIZE
    &&& bytes::word32(data, 0) == Some(LINK_HEADER_SIZE)
    &&& data.subrange(4, 20) == LINK_CLSID@
}

/// Where what follows the target identifier list starts.
pub open spec fn behind_target(data: Seq<u8>, flags: u32) -> Option<int> {
    if flag(flags, HAS_TARGET_IDLIST) {
        match bytes::word16(data, LINK_HEADER_SIZE as int) {
            Some(size) => Some(LINK_HEADER_SIZE + 2 + size),
            None => None,
        }
    } else {
        Some(LINK_HEADER_SIZE as int)
    }
}

/// Where what follows the link information starts; its size counts itself.
pub open spec fn behind_info(data: Seq<u8>, flags: u32) -> Option<int> {
    match behind_target(data, flags) {
        Some(off) => if flag(flags, HAS_LINK_INFO) {
            match bytes::word32(data, off) {
                Some(size) => if size < 4 {
                    None
                } else {
                    Some(off + size)
                },
                None => None,
            }
        } else {
            Some(off)
        },
        None => None,
    }
}

/// A link whose icon location is read from `off` on.
pub open spec fn from_icon(data: Seq<u8>, off: int, flags: u32, link: LinkModel) -> Option<
    LinkModel,
> {
    match string_if(flag(flags, HAS_ICON_LOCATION), data, off, flag(flags, IS_UNICODE)) {
        Some((icon, _)) => Some(LinkModel { icon_location: icon, ..link }),
        None => None,
    }
}

/// A link whose arguments, and what follows them, are read from `off` on.
pub open spec fn from_arguments(data: Seq<u8>, off: int, flags: u32, link: LinkModel) -> Option<
    LinkModel,
> {
    match string_if(flag(flags, HAS_ARGUMENTS), data, off, flag(flags, IS_UNICODE)) {
        Some((args, next)) => from_icon(data, next, flags, LinkModel { arguments: args, ..link }),
        None => None,
    }
}

/// A link whose working directory, and what follows it, is read from `off` on.
pub open spec fn from_dir(data: Seq<u8>, off: int, flags: u32, link: LinkModel) -> Option<
    LinkModel,
> {
    match string_if(flag(flags, HAS_WORKING_DIR), data, off, flag(flags, IS_UNICODE)) {
        Some((dir, next)) => from_arguments(
            data,
            next,
            flags,
            LinkModel { working_dir: dir, ..link },
        ),
        None => None,
    }
}

/// A link whose relative path, and what follows it, is read from `off` on.
pub open spec fn from_path(data: Seq<u8>, off: int, flags: u32, link: LinkModel) -> Option<
    LinkModel,
> {
    match string_if(flag(flags, HAS_RELATIVE_PATH), data, off, flag(flags, IS_UNICODE)) {
        Some((path, next)) => from_dir(data, next, flags, LinkModel { relative_path: path, ..link }),
        None => None,
    }
}

/// The strings of a link, which stand in a fixed order from `off` on, each
/// present only if its flag is set. The name comes first and is passed over.
pub open spec fn link_strings(data: Seq<u8>, off: int, flags: u32, hidden: bool) -> Option<
    LinkModel,
> {
    match string_if(flag(flags, HAS_NAME), data, off, flag(flags, IS_UNICODE)) {
        Some((_, next)) => from_path(
            data,
            next,
            flags,
            LinkModel {
                relative_path: None,
                working_dir: None,
                arguments: None,
                icon_location: None,
                starts_hidden: hidden,
            },
        ),
        None => None,
    }
}

/// The shortcut that the data holds. One whose blocks or strings do not lie
/// within the data is malformed, and none.
pub open spec fn shell_link(data: Seq<u8>) -> Option<LinkModel> {
    if !is_link(data) {
        None
    } else {
        let flags = bytes::word32(data, 20)->0;
        let hidden = bytes::word32(data, 60) == Some(SHOW_MINIMISED);
        match behind_info(data, flags) {
            Some(off) => link_strings(data, off, flags, hidden),
            None => None,
        }
    }
}

/// What an optional shortcut says.
pub open spec fn link_view(link: Option<ShellLink>) -> Option<LinkModel> {
    match link {
        Some(l) => Some(l@),
        None => None,
    }
}

/// The code units that bytes hold.
fn units_of(raw: &[u8]) -> (r: Vec<u16>)
    ensures
        r@ == code_units(raw@),
{
    let len: usize = raw.len();
    let n: usize = len / 2;
    let mut out: Vec<u16> = Vec::new();
    let mut i: usize = 0;
    while i < n
        invariant
            len == raw@.len(),
            n == len / 2,
            i <= n,
            out@.len() == i,
            forall|j: int|
                0 <= j < i ==> #[trigger] out@[j] == (raw@[2 * j] + 0x100 * raw@[2 * j + 1]) as u16,
        decreases n - i,
    {
        out.push(raw[2 * i] as u16 + 0x100 * (raw[2 * i + 1] as u16));
        i += 1;
    }
    assert(out@ =~= code_units(raw@));
    out
}

/// What reading a string came to.
spec fn read_view(r: Option<(Option<String>, u64)>) -> Option<(Option<Seq<char>>, int)> {
    match r {
        Some((s, next)) => Some((text::text_of(s), next as int)),
        None => None,
    }
}

/// Reads a string if it is present.
fn read_string(present: bool, data: &[u8], off: u64, unicode: bool) -> (r: Option<
    (Option<String>, u64),
>)
    requires
        off <= 0x1_0010_0000,
    ensures
        read_view(r) == string_if(present, data@, off as int, unicode),
        r matches Some(s) ==> s.1 <= off + 0x2_0000,
{
    if !present {
        return Some((None, off));
    }
    let n: usize = data.len();
    if off > n as u64 {
        return None;
    }
    let at: usize = off as usize;
    match u16_at(data, at) {
        Some(count) => {
            let len: usize = if unicode {
                2 * (count as usize)
            } else {
                count as usize
            };
            if n - at - 2 < len {
                return None;
            }
            let raw = slice_subrange(data, at + 2, at + 2 + len);
            let s = if unicode {
                String::from_utf16_lossy(units_of(raw).as_slice())
            } else {
                from_utf8_lossy(raw)
            };
            Some((Some(s), off + 2 + len as u64))
        },
        None => None,
    }
}

/// Reads a 32-bit integer at an offset that may lie outside the data.
fn u32_far(data: &[u8], off: u64) -> (r: Option<u32>)
    ensures
        r == bytes::word32(data@, off as int),
{
    if off > data.len() as u64 {
        return None;
    }
    u32_at(data, off as usize)
}

/// Reads the strings of a link from `off` on.
fn read_strings(data: &[u8], off: u64, flags: u32, hidden: bool) -> (r: Option<ShellLink>)
    requires
        off <= 0x1_0002_0000,
    ensures
        link_view(r) == link_strings(data@, off as int, flags, hidden),
{
    let unicode = flags / IS_UNICODE % 2 == 1;
    let name = match read_string(flags / HAS_NAME % 2 == 1, data, off, unicode) {
        Some(read) => read,
        None => return None,
    };
    let path = match read_string(flags / HAS_RELATIVE_PATH % 2 == 1, data, name.1, unicode) {
        Some(read) => read,
        None => return None,
    };
    let dir = match read_string(flags / HAS_WORKING_DIR % 2 == 1, data, path.1, unicode) {
        Some(read) => read,
        None => return None,
    };
    let args = match read_string(flags / HAS_ARGUMENTS % 2 == 1, data, dir.1, unicode) {
        Some(read) => read,
        None => return None,
    };
    let icon = match read_string(flags / HAS_ICON_LOCATION % 2 == 1, data, args.1, unicode) {
        Some(read) => read,
        None => return None,
    };
    Some(
        ShellLink {
            relative_path: path.0,
            working_dir: dir.0,
            arguments: args.0,
            icon_location: icon.0,
            starts_hidden: hidden,
        },
    )
}

/// Parses a shell link far enough to read its strings. Nothing comes of data
/// that is no shortcut or a malformed one.
pub fn parse_lnk(data: &[u8]) -> (r: Option<ShellLink>)
    ensures
        link_view(r) == shell_link(data@),
{
    if data.len() < LINK_HEADER_SIZE as usize {
        return None;
    }
    match u32_at(data, 0) {
        Some(size) => if size != LINK_HEADER_SIZE {
            return None;
        },
        None => return None,
    }
    if !equal(slice_subrange(data, 4, 20), &LINK_CLSID) {
        return None;
    }
    let (flags, show_command) = match (u32_at(data, 20), u32_at(data, 60)) {
        (Some(flags), Some(show_command)) => (flags, show_command),
        _ => return None,
    };
    let mut off: u64 = LINK_HEADER_SIZE as u64;
    if flags / HAS_TARGET_IDLIST % 2 == 1 {
        match u16_at(data, LINK_HEADER_SIZE as usize) {
            Some(size) => {
                off = off + 2 + size as u64;
            },
            None => return None,
        }
    }
    if flags / HAS_LINK_INFO % 2 == 1 {
        match u32_far(data, off) {
            Some(size) => {
                if size < 4 {
                    return None;
                }
                off = off + size as u64;
            },
            None => return None,
        }
    }
    assert(behind_info(data@, flags) == Some(off as int));
    read_strings(data, off, flags, show_command == SHOW_MINIMISED)
}

/// Windows binaries that malware uses to run its payload, because they are
/// already installed and already trusted.
pub const LOLBINS: [&'static str; 23] = [
    "powershell", "pwsh", "cmd.exe", "mshta", "wscript", "cscript", "rundll32", "regsvr32",
    "certutil", "bitsadmin", "msiexec", "curl", "wmic", "forfiles", "installutil", "msbuild",
    "cmstp", "odbcconf", "conhost", "explorer.exe", "schtasks", "reg.exe", "wmiprvse",
];

/// Command-line fragments that indicate deliberate concealment, and what they
/// are.
pub const EVASION_MARKERS: [(&'static str, &'static str); 19] = [
    ("-enc", "a base64-encoded command, which hides what is actually run"),
    ("-encodedcommand", "a base64-encoded command, which hides what is actually run"),
    ("-e ", "a base64-encoded command, which hides what is actually run"),
    ("frombase64string", "decoding a hidden command at runtime"),
    ("-w hidden", "an instruction to run with no visible window"),
    ("-windowstyle hidden", "an instruction to run with no visible window"),
    ("-nop", "an instruction to skip the user's PowerShell profile and logging"),
    ("-noprofile", "an instruction to skip the user's PowerShell profile and logging"),
    ("-ep bypass", "an instruction to ignore the execution policy that would block scripts"),
    (
        "-executionpolicy bypass",
        "an instruction to ignore the execution policy that would block scripts",
    ),
    ("downloadstring", "fetching and running code from a remote server"),
    ("downloadfile", "fetching a file from a remote server"),
    ("invoke-expression", "running text as code"),
    ("iex ", "running text as code"),
    ("webclient", "fetching content from a remote server"),
    ("invoke-webrequest", "fetching content from a remote server"),
    ("start-process", "launching another program"),
    ("javascript:", "running script from a URL"),
    ("vbscript:", "running script from a URL"),
];

/// Fragments of icon sources that look like documents.
pub const DOCUMENT_ICONS: [&'static str; 5] = [
    "shell32.dll", "imageres.dll", "wordicon", "acrobat", "excel",
];

pub const COMMAND_TITLE: &'static str = "Shortcut is set up to run a system command, not open a file";

pub const COMMAND_WHY_1: &'static str = "A shortcut normally points at a document or a program you already have. This one \
     points at a Windows scripting tool and supplies it with instructions";

pub const COMMAND_WHY_2: &'static str = ". The tool \
     is already installed and already trusted, so nothing warns you when it runs.";

pub const CONCEALED_TITLE: &'static str = "Shortcut's command line is written to hide what it does";

pub const CONCEALED_WHY: &'static str = ". Concealment in a command line has no purpose other than \
     concealment.";

pub const HIDDEN_TITLE: &'static str = "Shortcut is set to run without showing a window";

pub const HIDDEN_DETAIL: &'static str = "Its window mode is 'minimised, not active'.";

pub const HIDDEN_WHY: &'static str = "Combined with a command line, this means whatever it runs does so invisibly. You \
     would see nothing happen after double-clicking it.";

pub const ICON_TITLE: &'static str = "Shortcut borrows a document icon while running a command";

pub const ICON_WHY: &'static str = "The icon is chosen by whoever made the shortcut and has no connection to what it \
     does. This one is dressed as a document and wired to a system command.";

/// Index `k` is the first of some fragments that stand in a text.
pub open spec fn first_fragment_at(s: Seq<char>, list: Seq<&'static str>, k: int) -> bool {
    &&& 0 <= k < list.len()
    &&& sequences::occurs(s, list[k]@)
    &&& forall|j: int| 0 <= j < k ==> !sequences::occurs(s, (#[trigger] list[j])@)
}

/// The first of some fragments that stand in a text.
pub open spec fn first_fragment(s: Seq<char>, list: Seq<&'static str>) -> Option<Seq<char>> {
    if exists|k: int| first_fragment_at(s, list, k) {
        Some(list[choose|k: int| first_fragment_at(s, list, k)]@)
    } else {
        None
    }
}

/// What the first `n` evasion markers say that stand in a command line.
pub open spec fn evasions(command: Seq<char>, n: nat) -> Seq<Seq<char>>
    decreases n,
{
    if n == 0 {
        Seq::empty()
    } else {
        let before = evasions(command, (n - 1) as nat);
        if sequences::occurs(command, EVASION_MARKERS@[n - 1].0@) {
            before.push(EVASION_MARKERS@[n - 1].1@)
        } else {
            before
        }
    }
}

/// A text, or none of it.
pub open spec fn or_empty(s: Option<Seq<char>>) -> Seq<char> {
    match s {
        Some(t) => t,
        None => Seq::empty(),
    }
}

/// The command that a shortcut runs.
pub open spec fn command_line(link: LinkModel) -> Seq<char> {
    or_empty(link.relative_path) + " "@ + or_empty(link.arguments)
}

/// The findings about a shortcut's command, whose lower-case form is
/// `lowered`.
pub open spec fn command_findings(command: Seq<char>, lowered: Seq<char>) -> Seq<FindingModel> {
    command_report(
        lowered,
        text::quoted(text::shortened(text::trimmed(command), 300)),
        text::quoted(text::shortened(lowered, 300)),
    )
}

/// The findings about a command whose lower-case form is `lowered`; the two
/// forms are shown as `shown` and `shown_lowered`.
pub open spec fn command_report(
    lowered: Seq<char>,
    shown: Seq<char>,
    shown_lowered: Seq<char>,
) -> Seq<FindingModel> {
    let hints = evasions(lowered, EVASION_MARKERS@.len());
    match first_fragment(lowered, LOLBINS@) {
        Some(bin) => {
            let risk: int = if hints.len() == 0 {
                7_000
            } else {
                9_000
            };
            seq![
                finding::finding(
                    finding::severity_band(risk),
                    COMMAND_TITLE@,
                    "Its command line invokes "@ + bin + ": "@ + shown,
                    COMMAND_WHY_1@ + (if hints.len() == 0 {
                        Seq::empty()
                    } else {
                        " that include "@ + text::joined(hints, ", and "@)
                    }) + COMMAND_WHY_2@,
                    risk,
                ),
            ]
        },
        None => if hints.len() == 0 {
            Seq::empty()
        } else {
            seq![
                finding::finding(
                    Severity::High,
                    CONCEALED_TITLE@,
                    "Command line: "@ + shown_lowered,
                    "It contains "@ + text::joined(hints, ", and "@) + CONCEALED_WHY@,
                    7_500,
                ),
            ]
        },
    }
}

/// The finding about a shortcut that starts hidden.
pub open spec fn hidden_findings(link: LinkModel, runs_tool: bool) -> Seq<FindingModel> {
    hidden_report(link.starts_hidden, text::trimmed(or_empty(link.arguments)).len() > 0, runs_tool)
}

/// The finding about a shortcut that starts a tool hidden, with arguments.
pub open spec fn hidden_report(
    starts_hidden: bool,
    has_arguments: bool,
    runs_tool: bool,
) -> Seq<FindingModel> {
    if starts_hidden && has_arguments && runs_tool {
        seq![
            finding::finding(Severity::High, HIDDEN_TITLE@, HIDDEN_DETAIL@, HIDDEN_WHY@, 6_000),
        ]
    } else {
        Seq::empty()
    }
}

/// The finding about a shortcut with a document's icon.
pub open spec fn icon_findings(link: LinkModel, runs_tool: bool) -> Seq<FindingModel> {
    match link.icon_location {
        Some(icon) => icon_report(
            text::lowercase(icon),
            text::quoted(text::shortened(icon, 200)),
            runs_tool,
        ),
        None => Seq::empty(),
    }
}

/// The finding about an icon whose lower-case path is `lowered`, shown as
/// `shown`.
pub open spec fn icon_report(lowered: Seq<char>, shown: Seq<char>, runs_tool: bool) -> Seq<
    FindingModel,
> {
    if first_fragment(lowered, DOCUMENT_ICONS@) is Some && runs_tool {
        seq![
            finding::finding(
                Severity::High,
                ICON_TITLE@,
                "Icon source: "@ + shown,
                ICON_WHY@,
                7_000,
            ),
        ]
    } else {
        Seq::empty()
    }
}

/// Everything that a shortcut gives to report.
pub open spec fn shortcut_findings(link: LinkModel) -> Seq<FindingModel> {
    let command = command_line(link);
    let lowered = text::lowercase(command);
    if text::trimmed(lowered).len() == 0 {
        Seq::empty()
    } else {
        let runs_tool = first_fragment(lowered, LOLBINS@) is Some;
        command_findings(command, lowered) + hidden_findings(link, runs_tool) + icon_findings(
            link,
            runs_tool,
        )
    }
}

/// The first of some fragments that stand in a text.
fn find_fragment(s: &str, list: &[&'static str]) -> (r: Option<&'static str>)
    ensures
        r is None <==> first_fragment(s@, list@) is None,
        r matches Some(t) ==> first_fragment(s@, list@) == Some(t@),
{
    let mut k: usize = 0;
    while k < list.len()
        invariant
            k <= list@.len(),
            forall|j: int| 0 <= j < k ==> !sequences::occurs(s@, (#[trigger] list@[j])@),
        decreases list@.len() - k,
    {
        if contains(s, list[k]) {
            assert(first_fragment_at(s@, list@, k as int));
            assert(forall|m: int| first_fragment_at(s@, list@, m) ==> m == k);
            return Some(list[k]);
        }
        k += 1;
    }
    None
}

/// What the evasion markers say that stand in a command line.
fn evasions_in(command: &str) -> (r: Vec<String>)
    ensures
        text::texts(r@) == evasions(command@, EVASION_MARKERS@.len()),
{
    broadcast use text::lemma_texts_push;

    let mut out: Vec<String> = Vec::new();
    assert(text::texts(out@) =~= evasions(command@, 0));
    let mut k: usize = 0;
    while k < EVASION_MARKERS.len()
        invariant
            k <= EVASION_MARKERS@.len(),
            text::texts(out@) == evasions(command@, k as nat),
        decreases EVASION_MARKERS@.len() - k,
    {
        if contains(command, EVASION_MARKERS[k].0) {
            out.push(EVASION_MARKERS[k].1.to_string());
        }
        k += 1;
    }
    out
}

/// The string of an optional one, or an empty one.
fn string_or_empty(s: &Option<String>) -> (r: String)
    ensures
        r@ == or_empty(text::text_of(*s)),
{
    match s {
        Some(t) => t.clone(),
        None => String::new(),
    }
}

/// A text without the white space around it.
fn trim_string(s: &str) -> (r: String)
    ensures
        r@ == text::trimmed(s@),
{
    let chars = chars_of(s);
    string_of(trim(chars.as_slice()).as_slice())
}

/// Reports a shortcut's command.
fn check_command(command: &str, lowered: &str) -> (r: Option<Finding>)
    ensures
        finding::optional(r) == command_findings(command@, lowered@),
{
    let shown = quote(truncate(trim_string(command).as_str(), 300).as_str());
    let shown_lowered = quote(truncate(lowered, 300).as_str());
    check_command_line(lowered, shown.as_str(), shown_lowered.as_str())
}

/// Reports a command whose lower-case form is `lowered`; the two forms are
/// shown as `shown` and `shown_lowered`.
pub fn check_command_line(lowered: &str, shown: &str, shown_lowered: &str) -> (r: Option<Finding>)
    ensures
        finding::optional(r) == command_report(lowered@, shown@, shown_lowered@),
{
    let hints = evasions_in(lowered);
    assert(text::texts(hints@).len() == hints@.len());
    match find_fragment(lowered, &LOLBINS) {
        Some(bin) => {
            let risk: i64 = if hints.len() == 0 {
                7_000
            } else {
                9_000
            };
            let mut detail: String = "Its command line invokes ".to_string();
            detail.append(bin);
            detail.append(": ");
            detail.append(shown);
            let mut why: String = COMMAND_WHY_1.to_string();
            if hints.len() > 0 {
                let mut what: String = " that include ".to_string();
                what.append(join(hints.as_slice(), ", and ").as_str());
                why.append(what.as_str());
            } else {
                assert(COMMAND_WHY_1@ + Seq::<char>::empty() =~= COMMAND_WHY_1@);
            }
            why.append(COMMAND_WHY_2);
            Some(Finding::new(severity_for(risk), COMMAND_TITLE.to_string(), detail, why, risk))
        },
        None => {
            if hints.len() == 0 {
                return None;
            }
            let mut detail: String = "Command line: ".to_string();
            detail.append(shown_lowered);
            let mut why: String = "It contains ".to_string();
            why.append(join(hints.as_slice(), ", and ").as_str());
            why.append(CONCEALED_WHY);
            Some(Finding::new(Severity::High, CONCEALED_TITLE.to_string(), detail, why, 7_500))
        },
    }
}

/// Reports a shortcut that starts hidden.
fn check_hidden(link: &ShellLink, runs_tool: bool) -> (r: Option<Finding>)
    ensures
        finding::optional(r) == hidden_findings(link@, runs_tool),
{
    let args = chars_of(string_or_empty(&link.arguments).as_str());
    check_hidden_start(link.starts_hidden, trim(args.as_slice()).len() > 0, runs_tool)
}

/// Reports a shortcut that starts a tool hidden, with arguments.
pub fn check_hidden_start(starts_hidden: bool, has_arguments: bool, runs_tool: bool) -> (r: Option<
    Finding,
>)
    ensures
        finding::optional(r) == hidden_report(starts_hidden, has_arguments, runs_tool),
{
    if starts_hidden && has_arguments && runs_tool {
        Some(
            Finding::new(
                Severity::High,
                HIDDEN_TITLE.to_string(),
                HIDDEN_DETAIL.to_string(),
                HIDDEN_WHY.to_string(),
                6_000,
            ),
        )
    } else {
        None
    }
}

/// Reports a shortcut with a document's icon.
fn check_icon(link: &ShellLink, runs_tool: bool) -> (r: Option<Finding>)
    ensures
        finding::optional(r) == icon_findings(link@, runs_tool),
{
    match &link.icon_location {
        Some(icon) => {
            let lowered = icon.to_lowercase();
            let shown = quote(truncate(icon.as_str(), 200).as_str());
            check_icon_path(lowered.as_str(), shown.as_str(), runs_tool)
        },
        None => None,
    }
}

/// Reports an icon whose lower-case path is `lowered`, shown as `shown`.
pub fn check_icon_path(lowered: &str, shown: &str, runs_tool: bool) -> (r: Option<Finding>)
    ensures
        finding::optional(r) == icon_report(lowered@, shown@, runs_tool),
{
    if find_fragment(lowered, &DOCUMENT_ICONS).is_none() || !runs_tool {
        return None;
    }
    let mut detail: String = "Icon source: ".to_string();
    detail.append(shown);
    Some(
        Finding::new(
            Severity::High,
            ICON_TITLE.to_string(),
            detail,
            ICON_WHY.to_string(),
            7_000,
        ),
    )
}

/// Turns a parsed shortcut into findings.
pub fn link_findings(link: &ShellLink) -> (r: Vec<Finding>)
    ensures
        finding::models(r@) == shortcut_findings(link@),
{
    let mut out: Vec<Finding> = Vec::new();
    assert(finding::models(out@) =~= Seq::<FindingModel>::empty());
    let mut command: String = string_or_empty(&link.relative_path);
    command.append(" ");
    command.append(string_or_empty(&link.arguments).as_str());
    let lowered = command.to_lowercase();
    let chars = chars_of(lowered.as_str());
    if trim(chars.as_slice()).len() == 0 {
        return out;
    }
    let runs_tool = find_fragment(lowered.as_str(), &LOLBINS).is_some();
    append_one(&mut out, check_command(command.as_str(), lowered.as_str()));
    assert(finding::models(out@) =~= command_findings(command@, lowered@));
    append_one(&mut out, check_hidden(link, runs_tool));
    append_one(&mut out, check_icon(link, runs_tool));
    out
}

// ---------------------------------------------------------------------------
// Office macros
// ---------------------------------------------------------------------------

/// Office extensions that are defined as macro-free.
pub const MACRO_FREE_OOXML: [&'static str; 6] = ["docx", "xlsx", "pptx", "dotx", "xltx", "potx"];

/// Office extensions that legitimately carry macros.
pub const MACRO_ENABLED_OOXML: [&'static str; 8] = [
    "docm", "xlsm", "pptm", "dotm", "xltm", "potm", "xlam", "ppam",
];

/// The start of an OLE compound file.
pub const OLE_HEADER: [u8; 8] = [0xD0, 0xCF, 0x11, 0xE0, 0xA1, 0xB1, 0x1A, 0xE1];

/// How much of a compound file is searched for stream names.
pub const OLE_SEARCH_LIMIT: usize = 1_048_576;

/// The name of the part that holds a macro project.
pub const MACRO_PART: &'static str = "vbaProject.bin";

pub const MACRO_FREE_TITLE: &'static str = "Document contains macros in a format that is not allowed to have them";

pub const MACRO_FREE_DETAIL: &'static str = ", which is by definition the macro-free variant, \
     yet the package contains a vbaProject.bin macro project.";

pub const MACRO_FREE_WHY: &'static str = "Microsoft created separate extensions so that .docx/.xlsx/.pptx would mean \
     'contains no code'. A file breaking that rule was renamed to look safer than \
     it is, or built to confuse tools that trust the extension.";

pub const MACRO_TITLE: &'static str = "Document contains macros";

pub const MACRO_DETAIL: &'static str = "The package contains a vbaProject.bin macro project.";

pub const MACRO_WHY: &'static str = "Macros are program code that runs inside Word or Excel. They are a normal \
     feature and also the most common way malicious documents work, which is why \
     Office blocks them by default on files from the internet. Enable them only \
     if you know who sent this and why it needs them.";

pub const STRAY_MACRO_TITLE: &'static str = "File contains an Office macro project but is not an Office document";

pub const STRAY_MACRO_DETAIL: &'static str = ", yet the contents include vbaProject.bin.";

pub const STRAY_MACRO_WHY: &'static str = "A macro project outside an Office document is code packaged somewhere it does \
     not belong.";

pub const OLE_MACRO_DETAIL: &'static str = "The compound-document directory names a _VBA_PROJECT stream.";

pub const OLE_MACRO_WHY: &'static str = "This is the older Office format, which does not distinguish macro-free files by \
     extension the way .docx does - so the only way to know is to look inside, which \
     is what this check does. Macros are code that runs inside Word or Excel.";

/// Index `k` is the first entry whose file name is `name`, whatever the case of
/// its letters.
pub open spec fn entry_named_at(entries: Seq<EntryModel>, name: Seq<char>, k: int) -> bool {
    &&& 0 <= k < entries.len()
    &&& text::same_ignoring_ascii_case(text::base_name(entries[k].name), name)
    &&& forall|j: int|
        0 <= j < k ==> !text::same_ignoring_ascii_case(
            text::base_name((#[trigger] entries[j]).name),
            name,
        )
}

/// The first entry whose file name is `name`, whatever the case of its
/// letters.
pub open spec fn entry_named(entries: Seq<EntryModel>, name: Seq<char>) -> Option<EntryModel> {
    if exists|k: int| entry_named_at(entries, name, k) {
        Some(entries[choose|k: int| entry_named_at(entries, name, k)])
    } else {
        None
    }
}

/// The index of the first entry whose file name is `name`.
fn find_entry(entries: &[ZipEntry], name: &str) -> (r: Option<usize>)
    ensures
        r is None <==> entry_named(archive::entry_models(entries@), name@) is None,
        r matches Some(k) ==> k < entries@.len() && entry_named(
            archive::entry_models(entries@),
            name@,
        ) == Some(entries@[k as int]@),
{
    let ghost list = archive::entry_models(entries@);
    let mut k: usize = 0;
    while k < entries.len()
        invariant
            k <= entries@.len(),
            list == archive::entry_models(entries@),
            forall|j: int|
                0 <= j < k ==> !text::same_ignoring_ascii_case(
                    text::base_name((#[trigger] list[j]).name),
                    name@,
                ),
        decreases entries@.len() - k,
    {
        assert(list[k as int] == entries@[k as int]@);
        if equal_ignoring_ascii_case(entries[k].file_name(), name) {
            assert(entry_named_at(list, name@, k as int));
            assert(forall|m: int| entry_named_at(list, name@, m) ==> m == k);
            return Some(k);
        }
        k += 1;
    }
    None
}

/// The finding about a macro project in a ZIP package with extension `ext`.
pub open spec fn package_macro(ext: Seq<char>) -> FindingModel {
    if text::one_of(ext, MACRO_FREE_OOXML@) {
        finding::finding(
            Severity::Critical,
            MACRO_FREE_TITLE@,
            "The name ends in ."@ + ext + MACRO_FREE_DETAIL@,
            MACRO_FREE_WHY@,
            7_500,
        )
    } else if text::one_of(ext, MACRO_ENABLED_OOXML@) {
        finding::finding(Severity::Medium, MACRO_TITLE@, MACRO_DETAIL@, MACRO_WHY@, 4_500)
    } else {
        finding::finding(
            Severity::High,
            STRAY_MACRO_TITLE@,
            "The name ends in ."@ + ext + STRAY_MACRO_DETAIL@,
            STRAY_MACRO_WHY@,
            5_500,
        )
    }
}

/// What is to be reported of macros in a ZIP package.
pub open spec fn package_macro_findings(data: Seq<u8>, ext: Seq<char>) -> Seq<FindingModel> {
    match archive::archive_entries(data) {
        Some(entries) => macro_part_findings(entries, ext),
        None => Seq::empty(),
    }
}

/// What is to be reported of macros among the entries of a ZIP package.
pub open spec fn macro_part_findings(entries: Seq<EntryModel>, ext: Seq<char>) -> Seq<FindingModel> {
    if entry_named(entries, MACRO_PART@) is Some {
        seq![package_macro(ext)]
    } else {
        Seq::empty()
    }
}

/// An ASCII text in UTF-16, low byte first.
pub open spec fn wide(s: Seq<char>) -> Seq<u8> {
    Seq::new(
        2 * s.len(),
        |i: int|
            if i % 2 == 0 {
                bytes::byte_of(s[i / 2])
            } else {
                0
            },
    )
}

/// The front of some data, at most `max` bytes.
pub open spec fn front(data: Seq<u8>, max: nat) -> Seq<u8> {
    if data.len() < max {
        data
    } else {
        data.take(max as int)
    }
}

/// A wide text stands in the front of the data.
pub open spec fn has_wide(data: Seq<u8>, s: Seq<char>) -> bool {
    sequences::occurs(front(data, OLE_SEARCH_LIMIT as nat), wide(s))
}

/// What is to be reported of macros in an OLE compound file.
pub open spec fn ole_macro_findings(data: Seq<u8>) -> Seq<FindingModel> {
    if sequences::begins_with(data, OLE_HEADER@) && has_wide(data, "VBA"@) && has_wide(
        data,
        "_VBA_PROJECT"@,
    ) {
        seq![
            finding::finding(Severity::High, MACRO_TITLE@, OLE_MACRO_DETAIL@, OLE_MACRO_WHY@, 5_000),
        ]
    } else {
        Seq::empty()
    }
}

/// Everything that macros give to report.
pub open spec fn document_findings(data: Seq<u8>, ext: Seq<char>) -> Seq<FindingModel> {
    package_macro_findings(data, ext) + ole_macro_findings(data)
}

/// The front of some data.
fn front_of(data: &[u8], max: usize) -> (r: &[u8])
    ensures
        r@ == front(data@, max as nat),
{
    let n: usize = data.len();
    let end: usize = if n < max {
        n
    } else {
        max
    };
    let r = slice_subrange(data, 0, end);
    assert(r@ =~= front(data@, max as nat));
    r
}

/// Searches the front of the data for an ASCII text in UTF-16.
fn contains_utf16le(data: &[u8], needle: &str) -> (r: bool)
    ensures
        r == has_wide(data@, needle@),
{
    let narrow = pattern_bytes(needle);
    let mut pat: Vec<u8> = Vec::new();
    let mut i: usize = 0;
    while i < narrow.len()
        invariant
            i <= narrow@.len(),
            narrow@ == bytes::pattern(needle@),
            pat@.len() == 2 * i,
            forall|j: int|
                0 <= j < 2 * i ==> #[trigger] pat@[j] == (if j % 2 == 0 {
                    narrow@[j / 2]
                } else {
                    0
                }),
        decreases narrow@.len() - i,
    {
        pat.push(narrow[i]);
        pat.push(0);
        i += 1;
    }
    assert(pat@ =~= wide(needle@));
    sequences::contains(front_of(data, OLE_SEARCH_LIMIT), pat.as_slice())
}

/// Reports a macro project in a ZIP package.
fn check_package_macro(data: &[u8], ext: &str) -> (r: Option<Finding>)
    ensures
        finding::optional(r) == package_macro_findings(data@, ext@),
{
    match list_entries(data) {
        Some(entries) => check_macro_part(entries.as_slice(), ext),
        None => None,
    }
}

/// Reports a macro project among the entries of a ZIP package with extension
/// `ext`.
pub fn check_macro_part(entries: &[ZipEntry], ext: &str) -> (r: Option<Finding>)
    ensures
        finding::optional(r) == macro_part_findings(archive::entry_models(entries@), ext@),
{
    if find_entry(entries, MACRO_PART).is_none() {
        return None;
    }
    if is_one_of(ext, &MACRO_FREE_OOXML) {
        let mut detail: String = "The name ends in .".to_string();
        detail.append(ext);
        detail.append(MACRO_FREE_DETAIL);
        Some(
            Finding::new(
                Severity::Critical,
                MACRO_FREE_TITLE.to_string(),
                detail,
                MACRO_FREE_WHY.to_string(),
                7_500,
            ),
        )
    } else if is_one_of(ext, &MACRO_ENABLED_OOXML) {
        Some(
            Finding::new(
                Severity::Medium,
                MACRO_TITLE.to_string(),
                MACRO_DETAIL.to_string(),
                MACRO_WHY.to_string(),
                4_500,
            ),
        )
    } else {
        let mut detail: String = "The name ends in .".to_string();
        detail.append(ext);
        detail.append(STRAY_MACRO_DETAIL);
        Some(
            Finding::new(
                Severity::High,
                STRAY_MACRO_TITLE.to_string(),
                detail,
                STRAY_MACRO_WHY.to_string(),
                5_500,
            ),
        )
    }
}

/// Reports macros in an OLE compound file.
fn check_ole_macro(data: &[u8]) -> (r: Option<Finding>)
    ensures
        finding::optional(r) == ole_macro_findings(data@),
{
    if sequences::starts_with(data, &OLE_HEADER) && contains_utf16le(data, "VBA")
        && contains_utf16le(data, "_VBA_PROJECT") {
        Some(
            Finding::new(
                Severity::High,
                MACRO_TITLE.to_string(),
                OLE_MACRO_DETAIL.to_string(),
                OLE_MACRO_WHY.to_string(),
                5_000,
            ),
        )
    } else {
        None
    }
}

/// Reports macros in a document whose extension is `ext`.
pub fn macro_findings(data: &[u8], ext: &str) -> (r: Vec<Finding>)
    ensures
        finding::models(r@) == document_findings(data@, ext@),
{
    let mut out: Vec<Finding> = Vec::new();
    append_one(&mut out, check_package_macro(data, ext));
    assert(finding::models(out@) =~= package_macro_findings(data@, ext@));
    append_one(&mut out, check_ole_macro(data));
    out
}

// ---------------------------------------------------------------------------
// Internet shortcuts
// ---------------------------------------------------------------------------

/// How much of an internet shortcut is read.
pub const SHORTCUT_LIMIT: usize = 65_536;

/// Schemes that hand the rest of the line to a program.
pub const SCRIPT_SCHEMES: [&'static str; 4] = ["javascript:", "vbscript:", "ms-msdt:", "search-ms:"];

pub const SCHEME_TITLE: &'static str = "Shortcut opens something that runs code, not a web page";

pub const SCHEME_WHY: &'static str = "The target uses a scheme that hands the rest of the line to a program to \
     execute rather than to a browser to display.";

pub const SHARE_TITLE: &'static str = "Shortcut points at a file on another machine, not a web page";

pub const SHARE_WHY: &'static str = "Opening it fetches and opens a file from a remote server over Windows file \
     sharing. That both runs whatever is at the other end and hands your username \
     and password hash to the machine hosting it.";

pub const LEAK_TITLE: &'static str = "Shortcut contacts a remote server just by being displayed";

pub const LEAK_WHY: &'static str = "Windows Explorer resolves this path to draw the icon, before you click anything. \
     That contact sends your username and an authentication hash to whoever controls \
     that server. It is a credential theft technique that needs no interaction at all.";

/// A text that begins with one of some prefixes.
pub open spec fn begins_with_one(s: Seq<char>, list: Seq<&'static str>) -> bool {
    exists|i: int| 0 <= i < list.len() && sequences::begins_with(s, (#[trigger] list[i])@)
}

/// A path on another machine.
pub open spec fn remote_path(value: Seq<char>) -> bool {
    sequences::begins_with(value, "\\\\"@)
}

/// What is to be reported of the target of an internet shortcut.
/// `lowered` is its lower-case form, and `shown` is how it is shown.
pub open spec fn target_findings(value: Seq<char>, lowered: Seq<char>, shown: Seq<char>) -> Seq<
    FindingModel,
> {
    if begins_with_one(lowered, SCRIPT_SCHEMES@) {
        seq![
            finding::finding(
                Severity::Critical,
                SCHEME_TITLE@,
                "Target: "@ + shown,
                SCHEME_WHY@,
                8_500,
            ),
        ]
    } else if remote_path(value) || sequences::begins_with(lowered, "file://"@) {
        seq![
            finding::finding(
                Severity::High,
                SHARE_TITLE@,
                "Target: "@ + shown,
                SHARE_WHY@,
                7_000,
            ),
        ]
    } else {
        Seq::empty()
    }
}

/// What is to be reported of a place that is looked up for display, shown as
/// `shown`.
pub open spec fn leak_findings(key: Seq<char>, value: Seq<char>, shown: Seq<char>) -> Seq<
    FindingModel,
> {
    if (key == "iconfile"@ || key == "workingdirectory"@) && remote_path(value) {
        seq![
            finding::finding(
                Severity::High,
                LEAK_TITLE@,
                key + " points at "@ + shown,
                LEAK_WHY@,
                7_500,
            ),
        ]
    } else {
        Seq::empty()
    }
}

/// What is to be reported of one setting of an internet shortcut.
pub open spec fn setting_findings(key: Seq<char>, value: Seq<char>) -> Seq<FindingModel> {
    (if key == "url"@ {
        target_findings(
            value,
            text::lowercase(value),
            text::quoted(text::shortened(value, 300)),
        )
    } else {
        Seq::empty()
    }) + leak_findings(key, value, text::quoted(text::shortened(value, 200)))
}

/// Key and value of a line of an internet shortcut: what stands before its
/// first `=`, in lower case, and what stands behind it.
pub open spec fn setting(line: Seq<char>) -> Option<(Seq<char>, Seq<char>)> {
    let s = text::trimmed(line);
    match text::first_index(s, '=') {
        Some(i) => Some(
            (
                text::lowercase(text::trimmed(s.take(i))),
                text::trimmed(s.subrange(i + 1, s.len() as int)),
            ),
        ),
        None => None,
    }
}

/// What is to be reported of one line of an internet shortcut.
pub open spec fn line_findings(line: Seq<char>) -> Seq<FindingModel> {
    match setting(line) {
        Some((key, value)) => setting_findings(key, value),
        None => Seq::empty(),
    }
}

/// What is to be reported of the lines of an internet shortcut.
pub open spec fn lines_findings(lines: Seq<Seq<char>>) -> Seq<FindingModel>
    decreases lines.len(),
{
    if lines.len() == 0 {
        Seq::empty()
    } else {
        lines_findings(lines.drop_last()) + line_findings(lines.last())
    }
}

/// Everything that an internet shortcut gives to report.
pub open spec fn url_findings(data: Seq<u8>) -> Seq<FindingModel> {
    lines_findings(text::lines(text::utf8_lossy(front(data, SHORTCUT_LIMIT as nat))))
}

/// Whether a text begins with one of some prefixes.
fn starts_with_one(s: &str, list: &[&'static str]) -> (r: bool)
    ensures
        r == begins_with_one(s@, list@),
{
    let mut i: usize = 0;
    while i < list.len()
        invariant
            i <= list@.len(),
            forall|j: int|
                0 <= j < i ==> !sequences::begins_with(s@, (#[trigger] list@[j])@),
        decreases list@.len() - i,
    {
        if starts_with(s, list[i]) {
            assert(sequences::begins_with(s@, list@[i as int]@));
            return true;
        }
        i += 1;
    }
    false
}

/// Reports the target of an internet shortcut. `lowered` is its lower-case
/// form, and `shown` is how it is shown.
pub fn check_target(value: &str, lowered: &str, shown: &str) -> (r: Option<Finding>)
    ensures
        finding::optional(r) == target_findings(value@, lowered@, shown@),
{
    let script = starts_with_one(lowered, &SCRIPT_SCHEMES);
    if !script && !starts_with(value, "\\\\") && !starts_with(lowered, "file://") {
        return None;
    }
    let mut detail: String = "Target: ".to_string();
    detail.append(shown);
    if script {
        Some(
            Finding::new(
                Severity::Critical,
                SCHEME_TITLE.to_string(),
                detail,
                SCHEME_WHY.to_string(),
                8_500,
            ),
        )
    } else {
        Some(
            Finding::new(
                Severity::High,
                SHARE_TITLE.to_string(),
                detail,
                SHARE_WHY.to_string(),
                7_000,
            ),
        )
    }
}

/// Reports a place that is looked up for display, shown as `shown`.
pub fn check_leak(key: &str, value: &str, shown: &str) -> (r: Option<Finding>)
    ensures
        finding::optional(r) == leak_findings(key@, value@, shown@),
{
    if !(same(key, "iconfile") || same(key, "workingdirectory")) || !starts_with(value, "\\\\") {
        return None;
    }
    let mut detail: String = key.to_string();
    detail.append(" points at ");
    detail.append(shown);
    Some(
        Finding::new(
            Severity::High,
            LEAK_TITLE.to_string(),
            detail,
            LEAK_WHY.to_string(),
            7_500,
        ),
    )
}

/// Reports one setting of an internet shortcut.
fn check_setting(key: &str, value: &str) -> (r: Vec<Finding>)
    ensures
        finding::models(r@) == setting_findings(key@, value@),
{
    let mut out: Vec<Finding> = Vec::new();
    assert(finding::models(out@) =~= Seq::<FindingModel>::empty());
    if same(key, "url") {
        let lowered = value.to_lowercase();
        let shown = quote(truncate(value, 300).as_str());
        append_one(&mut out, check_target(value, lowered.as_str(), shown.as_str()));
    }
    assert(finding::models(out@) =~= (if key@ == "url"@ {
        target_findings(
            value@,
            text::lowercase(value@),
            text::quoted(text::shortened(value@, 300)),
        )
    } else {
        Seq::empty()
    }));
    let shown = quote(truncate(value, 200).as_str());
    append_one(&mut out, check_leak(key, value, shown.as_str()));
    out
}

/// Reports one line of an internet shortcut.
fn check_line(line: &str) -> (r: Vec<Finding>)
    ensures
        finding::models(r@) == line_findings(line@),
{
    let chars = chars_of(line);
    let s = trim(chars.as_slice());
    let n: usize = s.len();
    match find_char(s.as_slice(), '=') {
        Some(i) => {
            let left = slice_to_vec(s.as_slice(), 0, i);
            assert(left@ =~= s@.take(i as int));
            let right = slice_to_vec(s.as_slice(), i + 1, n);
            let key = string_of(trim(left.as_slice()).as_slice()).to_lowercase();
            let value = string_of(trim(right.as_slice()).as_slice());
            check_setting(key.as_str(), value.as_str())
        },
        None => {
            let out: Vec<Finding> = Vec::new();
            assert(finding::models(out@) =~= Seq::<FindingModel>::empty());
            out
        },
    }
}

/// Reports what an internet shortcut points at.
pub fn url_shortcut_findings(data: &[u8]) -> (r: Vec<Finding>)
    ensures
        finding::models(r@) == url_findings(data@),
{
    let content = chars_of(from_utf8_lossy(front_of(data, SHORTCUT_LIMIT)).as_str());
    let lines = lines_of(content.as_slice());
    let ghost all = text::texts(lines@);
    let mut out: Vec<Finding> = Vec::new();
    assert(finding::models(out@) =~= lines_findings(all.take(0)));
    let mut i: usize = 0;
    while i < lines.len()
        invariant
            i <= lines@.len(),
            all == text::texts(lines@),
            finding::models(out@) == lines_findings(all.take(i as int)),
        decreases lines@.len() - i,
    {
        proof {
            let longer = all.take(i + 1);
            assert(longer.drop_last() =~= all.take(i as int));
            assert(longer.last() == lines@[i as int]@);
        }
        append_all(&mut out, check_line(lines[i].as_str()));
        i += 1;
    }
    assert(all.take(lines@.len() as int) =~= all);
    out
}

// ---------------------------------------------------------------------------
// Formats
// ---------------------------------------------------------------------------

/// Formats that execute: the extension, what it is, the risk, and why it
/// matters. The weights say how odd it is to receive one: asking for a program
/// is ordinary, while nobody has a reason to send some of the others.
pub const EXECUTING_FORMATS: [(&'static str, &'static str, i64, &'static str); 30] = [
    (
        "exe",
        "a program",
        2_000,
        "It runs directly when opened. That is expected if you asked for a program.",
    ),
    (
        "msi",
        "a Windows installer package",
        2_000,
        "It installs software, which means it runs with the permissions you grant the installer.",
    ),
    (
        "jar",
        "a Java application",
        3_000,
        "If Java is installed, this runs when double-clicked with no further prompt.",
    ),
    (
        "ps1",
        "a PowerShell script",
        3_000,
        "Windows does not run these on double-click by default, but a single right-click menu \
         entry does, and the script has your full user permissions when it does.",
    ),
    (
        "bat",
        "a batch file",
        3_500,
        "It runs a sequence of commands immediately on double-click, with no prompt at all.",
    ),
    (
        "cmd",
        "a batch file",
        3_500,
        "It runs a sequence of commands immediately on double-click, with no prompt at all.",
    ),
    (
        "reg",
        "a registry edit",
        3_500,
        "Double-clicking applies it to the Windows registry after one confirmation, which can \
         change how the system starts up and what runs with it.",
    ),
    (
        "msc",
        "a management console file",
        4_000,
        "It opens a system administration console, and can be crafted to run a task on load.",
    ),
    (
        "scr",
        "a screensaver",
        5_500,
        "A screensaver is an ordinary Windows program with a different extension. It runs exactly \
         like an .exe when double-clicked. There is almost no reason to receive one.",
    ),
    (
        "cpl",
        "a Control Panel item",
        5_500,
        "This is a program that Windows loads and runs through the Control Panel. Receiving one \
         as a download is not a normal thing.",
    ),
    (
        "pif",
        "a legacy program shortcut",
        6_500,
        "Windows still executes these for backwards compatibility with MS-DOS. Nothing has \
         legitimately produced one in decades; the format survives only because it still works.",
    ),
    (
        "hta",
        "an HTML Application",
        6_500,
        "It looks like a web page but runs outside the browser with your full permissions - none \
         of the sandboxing that makes opening a web page safe applies.",
    ),
    (
        "wsf",
        "a Windows Script Host file",
        6_000,
        "Windows runs it immediately on double-click. It can mix scripting languages, which is \
         used to confuse scanners.",
    ),
    (
        "wsh",
        "a Windows Script Host settings file",
        5_000,
        "It controls how scripts execute on this machine.",
    ),
    (
        "vbs",
        "a Visual Basic script",
        5_500,
        "Windows runs it immediately on double-click, with no prompt and your full permissions.",
    ),
    (
        "vbe",
        "an encoded Visual Basic script",
        7_000,
        "It is a script deliberately encoded so its contents cannot be read. Windows decodes and \
         runs it anyway. The encoding has no purpose except to hide what it does.",
    ),
    (
        "js",
        "a script file",
        5_000,
        "Outside a browser, Windows runs a .js file directly with full local permissions - none \
         of the restrictions that apply to scripts on a web page.",
    ),
    (
        "jse",
        "an encoded script file",
        7_000,
        "It is a script deliberately encoded so its contents cannot be read. Windows decodes and \
         runs it anyway.",
    ),
    (
        "scf",
        "a Windows Explorer command file",
        6_000,
        "It runs when the containing folder is merely *viewed*, without being clicked, and can be \
         pointed at a remote server to leak your credentials.",
    ),
    (
        "chm",
        "a compiled help file",
        5_500,
        "Help files can contain and execute scripts. This format is used to deliver payloads \
         because it does not look like a program.",
    ),
    (
        "settingcontent-ms",
        "a Windows settings shortcut",
        7_000,
        "The format contains a `DeepLink` field naming a command, and Windows runs it. It was \
         designed to open a settings page; it will run anything.",
    ),
    (
        "appref-ms",
        "a ClickOnce application reference",
        6_000,
        "It causes Windows to download and run an application from a URL inside the file.",
    ),
    (
        "diagcab",
        "a troubleshooting package",
        6_500,
        "It runs a diagnostic script package with elevated trust and minimal prompting.",
    ),
    (
        "lnk",
        "a Windows shortcut",
        6_000,
        "A shortcut carries a full command line and a chosen icon, so it can look like a document \
         while running anything at all.",
    ),
    (
        "url",
        "an internet shortcut",
        4_500,
        "It names a target to open. If that target is a network path rather than a web page, \
         opening it reaches out to another machine.",
    ),
    (
        "website",
        "a pinned-site shortcut",
        4_500,
        "It names a target to open, in the same way an internet shortcut does.",
    ),
    (
        "iso",
        "a disc image",
        5_000,
        "Double-clicking mounts it as a drive. Crucially, files opened from a mounted image do \
         NOT carry the Mark of the Web that downloads normally get, so Windows SmartScreen and \
         Office Protected View do not warn about them. That bypass is the reason malware moved to \
         this format.",
    ),
    (
        "img",
        "a disc image",
        5_000,
        "Double-clicking mounts it as a drive, and files inside do not inherit the Mark of the \
         Web that would normally make Windows warn you before running them.",
    ),
    (
        "vhd",
        "a virtual hard disk",
        5_000,
        "Double-clicking mounts it as a drive, and files inside do not inherit the Mark of the \
         Web that would normally make Windows warn you before running them.",
    ),
    (
        "vhdx",
        "a virtual hard disk",
        5_000,
        "Double-clicking mounts it as a drive, and files inside do not inherit the Mark of the \
         Web that would normally make Windows warn you before running them.",
    ),
];

/// Row `k` of the executing formats is the first one for `ext`.
pub open spec fn format_row_at(ext: Seq<char>, k: int) -> bool {
    &&& 0 <= k < EXECUTING_FORMATS@.len()
    &&& EXECUTING_FORMATS@[k].0@ == ext
    &&& forall|j: int| 0 <= j < k ==> (#[trigger] EXECUTING_FORMATS@[j]).0@ != ext
}

/// The row of the executing formats for `ext`.
pub open spec fn format_row(ext: Seq<char>) -> Option<int> {
    if exists|k: int| format_row_at(ext, k) {
        Some(choose|k: int| format_row_at(ext, k))
    } else {
        None
    }
}

/// The finding about a format that executes.
pub open spec fn format_findings(ext: Seq<char>) -> Seq<FindingModel> {
    match format_row(ext) {
        Some(k) => {
            let row = EXECUTING_FORMATS@[k];
            seq![
                finding::finding(
                    finding::severity_band(row.2 as int),
                    "This file runs when opened - it is "@ + row.1@,
                    "The name ends in ."@ + ext + ", which Windows treats as "@ + row.1@ + "."@,
                    row.3@,
                    row.2 as int,
                ),
            ]
        },
        None => Seq::empty(),
    }
}

/// Reports a format that executes.
pub fn check_format(ext: &str) -> (r: Option<Finding>)
    ensures
        finding::optional(r) == format_findings(ext@),
        r is Some <==> format_row(ext@) is Some,
{
    let mut k: usize = 0;
    while k < EXECUTING_FORMATS.len()
        invariant
            k <= EXECUTING_FORMATS@.len(),
            forall|j: int| 0 <= j < k ==> (#[trigger] EXECUTING_FORMATS@[j]).0@ != ext@,
        decreases EXECUTING_FORMATS@.len() - k,
    {
        if same(EXECUTING_FORMATS[k].0, ext) {
            assert(format_row_at(ext@, k as int));
            assert(forall|m: int| format_row_at(ext@, m) ==> m == k);
            let what: &'static str = EXECUTING_FORMATS[k].1;
            let risk: i64 = EXECUTING_FORMATS[k].2;
            let mut title: String = "This file runs when opened - it is ".to_string();
            title.append(what);
            let mut detail: String = "The name ends in .".to_string();
            detail.append(ext);
            detail.append(", which Windows treats as ");
            detail.append(what);
            detail.append(".");
            return Some(
                Finding::new(
                    severity_for(risk),
                    title,
                    detail,
                    EXECUTING_FORMATS[k].3.to_string(),
                    risk,
                ),
            );
        }
        k += 1;
    }
    None
}

// ---------------------------------------------------------------------------
// autorun.inf
// ---------------------------------------------------------------------------

/// The file that names a command to run for a whole drive.
pub const AUTORUN: &'static str = "autorun.inf";

/// How much of an autorun file is read.
pub const AUTORUN_LIMIT: usize = 8_192;

pub const AUTORUN_TITLE: &'static str = "This file tells Windows what to run for a whole drive";

pub const AUTORUN_COMMAND_DETAIL: &'static str = "An autorun.inf naming a command via `open=` or `shellexecute=`.";

pub const AUTORUN_DETAIL: &'static str = "An autorun.inf file.";

pub const AUTORUN_WHY: &'static str = "autorun.inf exists to run a program automatically when a drive is opened. Modern \
     Windows ignores it on USB drives, but still honours it on mounted disc images - \
     which is exactly what the .iso files malware now ships in become when \
     double-clicked.";

pub const CONTAINER_TITLE: &'static str = "Container carries an instruction to run something on open";

pub const CONTAINER_WHY: &'static str = "autorun.inf names a program for Windows to run when the containing volume is \
     opened. Inside a downloadable container, its only purpose is to turn mounting \
     the container into running a program.";

/// The file is named like the file that names a command for a drive.
pub open spec fn is_autorun(filename: Seq<char>) -> bool {
    text::lowercase(text::base_name(filename)) == AUTORUN@
}

/// The finding about an autorun file with this text, in lower case.
pub open spec fn autorun_finding(content: Seq<char>) -> FindingModel {
    let names_command = sequences::occurs(content, "open="@) || sequences::occurs(
        content,
        "shellexecute="@,
    );
    let risk: int = if names_command {
        7_000
    } else {
        4_500
    };
    finding::finding(
        finding::severity_band(risk),
        AUTORUN_TITLE@,
        if names_command {
            AUTORUN_COMMAND_DETAIL@
        } else {
            AUTORUN_DETAIL@
        },
        AUTORUN_WHY@,
        risk,
    )
}

/// What is to be reported of a file that is named like an autorun file.
pub open spec fn autorun_findings(data: Seq<u8>, filename: Seq<char>) -> Seq<FindingModel> {
    if is_autorun(filename) {
        seq![
            autorun_finding(
                text::lowercase(text::utf8_lossy(front(data, AUTORUN_LIMIT as nat))),
            ),
        ]
    } else {
        Seq::empty()
    }
}

/// The finding about a container that carries an autorun file, shown as
/// `shown`.
pub open spec fn container_report(shown: Seq<char>) -> FindingModel {
    finding::finding(
        Severity::High,
        CONTAINER_TITLE@,
        "It contains "@ + shown + "."@,
        CONTAINER_WHY@,
        7_000,
    )
}

/// The finding about a container that carries an autorun file, shown as
/// `shown`.
pub fn container_finding(shown: &str) -> (r: Finding)
    ensures
        r@ == container_report(shown@),
{
    let mut detail: String = "It contains ".to_string();
    detail.append(shown);
    detail.append(".");
    Finding::new(
        Severity::High,
        CONTAINER_TITLE.to_string(),
        detail,
        CONTAINER_WHY.to_string(),
        7_000,
    )
}

/// What is to be reported of a container that carries an autorun file.
pub open spec fn container_findings(data: Seq<u8>) -> Seq<FindingModel> {
    match archive::archive_entries(data) {
        Some(entries) => match entry_named(entries, AUTORUN@) {
            Some(e) => seq![container_report(text::quoted(e.name))],
            None => Seq::empty(),
        },
        None => Seq::empty(),
    }
}

/// Reports an autorun file with this text, in lower case.
pub fn check_autorun_text(content: &str) -> (r: Finding)
    ensures
        r@ == autorun_finding(content@),
{
    let names_command = contains(content, "open=") || contains(content, "shellexecute=");
    let risk: i64 = if names_command {
        7_000
    } else {
        4_500
    };
    let detail: &'static str = if names_command {
        AUTORUN_COMMAND_DETAIL
    } else {
        AUTORUN_DETAIL
    };
    Finding::new(
        severity_for(risk),
        AUTORUN_TITLE.to_string(),
        detail.to_string(),
        AUTORUN_WHY.to_string(),
        risk,
    )
}

/// Reports a file that is named like an autorun file.
fn check_autorun(data: &[u8], filename: &str) -> (r: Option<Finding>)
    ensures
        finding::optional(r) == autorun_findings(data@, filename@),
        r is Some <==> is_autorun(filename@),
{
    let chars = chars_of(filename);
    let from: usize = base_start(chars.as_slice());
    let base = substring(chars.as_slice(), from, chars.len()).to_lowercase();
    if !same(base.as_str(), AUTORUN) {
        return None;
    }
    let content = from_utf8_lossy(front_of(data, AUTORUN_LIMIT)).to_lowercase();
    Some(check_autorun_text(content.as_str()))
}

/// Reports a container that carries an autorun file.
fn check_container(data: &[u8]) -> (r: Option<Finding>)
    ensures
        finding::optional(r) == container_findings(data@),
{
    match list_entries(data) {
        Some(entries) => match find_entry(entries.as_slice(), AUTORUN) {
            Some(k) => Some(container_finding(quote(entries[k].name.as_str()).as_str())),
            None => None,
        },
        None => None,
    }
}

// ---------------------------------------------------------------------------
// The whole analysis
// ---------------------------------------------------------------------------

/// Result of the analysis.
#[derive(Debug)]
pub struct AutoExecResult {
    pub flagged: bool,
    pub flags: Vec<String>,
    pub findings: Vec<Finding>,
    pub risk: i64,
    /// True when the format runs code on open without any further step.
    pub executes_on_open: bool,
}

/// What is to be reported of the shortcut that the data holds.
pub open spec fn embedded_link_findings(data: Seq<u8>) -> Seq<FindingModel> {
    match shell_link(data) {
        Some(link) => shortcut_findings(link),
        None => Seq::empty(),
    }
}

/// What is to be reported of the target of a file with an internet shortcut's
/// extension.
pub open spec fn named_url_findings(data: Seq<u8>, ext: Seq<char>) -> Seq<FindingModel> {
    if ext == "url"@ || ext == "website"@ {
        url_findings(data)
    } else {
        Seq::empty()
    }
}

/// What a file gives to report by its format, its shortcut and its macros.
pub open spec fn content_findings(data: Seq<u8>, ext: Seq<char>) -> Seq<FindingModel> {
    format_findings(ext) + embedded_link_findings(data) + document_findings(data, ext)
}

/// What a file gives to report by the commands and places that it names.
pub open spec fn instruction_findings(data: Seq<u8>, filename: Seq<char>, ext: Seq<char>) -> Seq<
    FindingModel,
> {
    autorun_findings(data, filename) + named_url_findings(data, ext) + container_findings(data)
}

/// Everything that a file gives to report about what it runs.
pub open spec fn execution_findings(data: Seq<u8>, filename: Seq<char>) -> Seq<FindingModel> {
    let ext = text::tail_extension(filename);
    content_findings(data, ext) + instruction_findings(data, filename, ext)
}

/// Opening a file runs something, by its format, its shortcut or its macros.
pub open spec fn content_runs(data: Seq<u8>, ext: Seq<char>) -> bool {
    ||| format_row(ext) is Some
    ||| shell_link(data) is Some
    ||| document_findings(data, ext).len() > 0
}

/// Opening a file runs something, by the commands that it names.
pub open spec fn instructions_run(data: Seq<u8>, filename: Seq<char>) -> bool {
    is_autorun(filename) || container_findings(data).len() > 0
}

/// Opening the file runs something.
pub open spec fn runs_on_open(data: Seq<u8>, filename: Seq<char>) -> bool {
    content_runs(data, text::tail_extension(filename)) || instructions_run(data, filename)
}

/// Reports what a file gives away by its format, its shortcut and its macros,
/// and whether opening it runs something.
fn check_content(data: &[u8], ext: &str) -> (r: (Vec<Finding>, bool))
    ensures
        finding::models(r.0@) == content_findings(data@, ext@),
        r.1 == content_runs(data@, ext@),
{
    let mut findings: Vec<Finding> = Vec::new();
    let format = check_format(ext);
    let mut runs: bool = format.is_some();
    append_one(&mut findings, format);
    assert(finding::models(findings@) =~= format_findings(ext@));
    let ghost before = finding::models(findings@);
    match parse_lnk(data) {
        Some(link) => {
            append_all(&mut findings, link_findings(&link));
            runs = true;
        },
        None => {
            assert(before + Seq::<FindingModel>::empty() =~= before);
        },
    }
    let macros = macro_findings(data, ext);
    assert(finding::models(macros@).len() == macros@.len());
    if macros.len() > 0 {
        runs = true;
    }
    append_all(&mut findings, macros);
    (findings, runs)
}

/// Reports the commands and places that a file names, and whether opening it
/// runs something.
fn check_instructions(data: &[u8], filename: &str, ext: &str) -> (r: (Vec<Finding>, bool))
    ensures
        finding::models(r.0@) == instruction_findings(data@, filename@, ext@),
        r.1 == instructions_run(data@, filename@),
{
    let mut findings: Vec<Finding> = Vec::new();
    let autorun = check_autorun(data, filename);
    let mut runs: bool = autorun.is_some();
    append_one(&mut findings, autorun);
    assert(finding::models(findings@) =~= autorun_findings(data@, filename@));
    let ghost before = finding::models(findings@);
    if same(ext, "url") || same(ext, "website") {
        append_all(&mut findings, url_shortcut_findings(data));
    } else {
        assert(before + Seq::<FindingModel>::empty() =~= before);
    }
    let container = check_container(data);
    if container.is_some() {
        runs = true;
    }
    append_one(&mut findings, container);
    (findings, runs)
}

/// Analyses a complete file for auto-execution behaviour.
pub fn analyse(data: &[u8], filename: &str) -> (r: AutoExecResult)
    ensures
        finding::models(r.findings@) == execution_findings(data@, filename@),
        r.flagged == (execution_findings(data@, filename@).len() > 0),
        text::texts(r.flags@) == finding::one_line_texts(execution_findings(data@, filename@)),
        r.risk == finding::worst_risk(execution_findings(data@, filename@)),
        r.executes_on_open == runs_on_open(data@, filename@),
{
    let ext = tail_extension_of(filename);
    let (mut findings, content) = check_content(data, ext.as_str());
    let (more, instructions) = check_instructions(data, filename, ext.as_str());
    append_all(&mut findings, more);
    let flags = one_lines(findings.as_slice());
    let risk: i64 = worst(findings.as_slice());
    AutoExecResult {
        flagged: findings.len() > 0,
        flags,
        findings,
        risk,
        executes_on_open: content || instructions,
    }
}

// ---------------------------------------------------------------------------
// Laws
// ---------------------------------------------------------------------------

/// A document that must not hold macros, and does, is critical, and riskier
/// than any other package with macros.
pub proof fn law_macros_in_a_macro_free_document_weigh_most(
    entries: Seq<EntryModel>,
    ext: Seq<char>,
    other: Seq<char>,
)
    requires
        text::one_of(ext, MACRO_FREE_OOXML@),
        entry_named(entries, MACRO_PART@) is Some,
    ensures
        macro_part_findings(entries, ext) == seq![package_macro(ext)],
        package_macro(ext).severity == Severity::Critical,
        package_macro(other).risk <= package_macro(ext).risk,
{
}

/// A format that runs when opened is reported, whatever the file holds.
pub proof fn law_a_format_that_executes_is_reported(data: Seq<u8>, filename: Seq<char>)
    requires
        format_row(text::tail_extension(filename)) is Some,
    ensures
        execution_findings(data, filename).len() > 0,
        runs_on_open(data, filename),
{
}

/// An ordinary shortcut is no attack: one whose command names no tool that
/// attackers use and shows no evasion is not reported.
pub proof fn law_an_ordinary_shortcut_is_not_reported(link: LinkModel)
    requires
        first_fragment(text::lowercase(command_line(link)), LOLBINS@) is None,
        evasions(text::lowercase(command_line(link)), EVASION_MARKERS@.len()).len() == 0,
    ensures
        shortcut_findings(link).len() == 0,
{
}

/// Two readings of a string that agree, `shift` bytes apart.
spec fn apart(
    a: Option<(Option<Seq<char>>, int)>,
    b: Option<(Option<Seq<char>>, int)>,
    shift: int,
) -> bool {
    match (a, b) {
        (Some(x), Some(y)) => x.0 == y.0 && y.1 == x.1 + shift,
        (None, None) => true,
        _ => false,
    }
}

/// From index `from` on, the first data is the second, `shift` bytes further.
spec fn ends_alike(first: Seq<u8>, second: Seq<u8>, from: int, shift: int) -> bool {
    &&& 0 <= from <= first.len()
    &&& 0 <= shift
    &&& from + shift <= second.len()
    &&& first.skip(from) == second.skip(from + shift)
}

/// Data that ends alike reads alike.
proof fn lemma_strings_shift(
    first: Seq<u8>,
    second: Seq<u8>,
    from: int,
    shift: int,
    off: int,
    present: bool,
    unicode: bool,
)
    requires
        ends_alike(first, second, from, shift),
        from <= off,
    ensures
        apart(
            string_if(present, first, off, unicode),
            string_if(present, second, off + shift, unicode),
            shift,
        ),
        string_if(present, first, off, unicode) matches Some(r) ==> off <= r.1,
{
    assert(first.skip(from).len() == first.len() - from);
    assert(second.skip(from + shift).len() == second.len() - from - shift);
    assert forall|i: int| from <= i < first.len() implies first[i] == second[i + shift] by {
        let j = i - from;
        assert(first.skip(from)[j] == first[j + from]);
        assert(second.skip(from + shift)[j] == second[j + (from + shift)]);
    }
    assert(first.len() + shift == second.len());
    if off + 2 <= first.len() {
        assert(first[off] == second[off + shift]);
        assert(first[off + 1] == second[off + 1 + shift]);
    }
    assert(bytes::word16(first, off) == bytes::word16(second, off + shift));
    if let Some(count) = bytes::word16(first, off) {
        let len = if unicode {
            2 * count
        } else {
            count as int
        };
        if off + 2 + len <= first.len() {
            let a = first.subrange(off + 2, off + 2 + len);
            let b = second.subrange(off + shift + 2, off + shift + 2 + len);
            assert forall|i: int| 0 <= i < len implies a[i] == b[i] by {
                assert(first[off + 2 + i] == second[off + 2 + i + shift]);
            }
            assert(a =~= b);
        }
    }
}

/// The two lowest flags do not touch the others.
proof fn lemma_same_flags(f: u32, g: u32)
    requires
        f % 4 == 0,
        g == f + 3,
    ensures
        flag(f, HAS_NAME) == flag(g, HAS_NAME),
        flag(f, HAS_RELATIVE_PATH) == flag(g, HAS_RELATIVE_PATH),
        flag(f, HAS_WORKING_DIR) == flag(g, HAS_WORKING_DIR),
        flag(f, HAS_ARGUMENTS) == flag(g, HAS_ARGUMENTS),
        flag(f, HAS_ICON_LOCATION) == flag(g, HAS_ICON_LOCATION),
        flag(f, IS_UNICODE) == flag(g, IS_UNICODE),
{
    assert(f / 4 == g / 4);
    assert(f / 8 == f / 4 / 2 && g / 8 == g / 4 / 2);
    assert(f / 16 == f / 8 / 2 && g / 16 == g / 8 / 2);
    assert(f / 32 == f / 16 / 2 && g / 32 == g / 16 / 2);
    assert(f / 64 == f / 32 / 2 && g / 64 == g / 32 / 2);
    assert(f / 128 == f / 64 / 2 && g / 128 == g / 64 / 2);
}

/// So does a link from its icon location on.
proof fn lemma_icon_shift(
    first: Seq<u8>,
    second: Seq<u8>,
    from: int,
    shift: int,
    off: int,
    f: u32,
    g: u32,
    link: LinkModel,
)
    requires
        ends_alike(first, second, from, shift),
        from <= off,
        f % 4 == 0,
        g == f + 3,
    ensures
        from_icon(first, off, f, link) == from_icon(second, off + shift, g, link),
{
    lemma_same_flags(f, g);
    let present = flag(f, HAS_ICON_LOCATION);
    lemma_strings_shift(first, second, from, shift, off, present, flag(f, IS_UNICODE));
}

/// So does a link from its arguments on.
proof fn lemma_arguments_shift(
    first: Seq<u8>,
    second: Seq<u8>,
    from: int,
    shift: int,
    off: int,
    f: u32,
    g: u32,
    link: LinkModel,
)
    requires
        ends_alike(first, second, from, shift),
        from <= off,
        f % 4 == 0,
        g == f + 3,
    ensures
        from_arguments(first, off, f, link) == from_arguments(second, off + shift, g, link),
{
    lemma_same_flags(f, g);
    let present = flag(f, HAS_ARGUMENTS);
    lemma_strings_shift(first, second, from, shift, off, present, flag(f, IS_UNICODE));
    if let Some((s, next)) = string_if(present, first, off, flag(f, IS_UNICODE)) {
        lemma_icon_shift(first, second, from, shift, next, f, g, LinkModel { arguments: s, ..link });
    }
}

/// So does a link from its working directory on.
proof fn lemma_dir_shift(
    first: Seq<u8>,
    second: Seq<u8>,
    from: int,
    shift: int,
    off: int,
    f: u32,
    g: u32,
    link: LinkModel,
)
    requires
        ends_alike(first, second, from, shift),
        from <= off,
        f % 4 == 0,
        g == f + 3,
    ensures
        from_dir(first, off, f, link) == from_dir(second, off + shift, g, link),
{
    lemma_same_flags(f, g);
    let present = flag(f, HAS_WORKING_DIR);
    lemma_strings_shift(first, second, from, shift, off, present, flag(f, IS_UNICODE));
    if let Some((s, next)) = string_if(present, first, off, flag(f, IS_UNICODE)) {
        lemma_arguments_shift(first, second, from, shift, next, f, g, LinkModel { working_dir: s, ..link });
    }
}

/// So does a link from its relative path on.
proof fn lemma_path_shift(
    first: Seq<u8>,
    second: Seq<u8>,
    from: int,
    shift: int,
    off: int,
    f: u32,
    g: u32,
    link: LinkModel,
)
    requires
        ends_alike(first, second, from, shift),
        from <= off,
        f % 4 == 0,
        g == f + 3,
    ensures
        from_path(first, off, f, link) == from_path(second, off + shift, g, link),
{
    lemma_same_flags(f, g);
    let present = flag(f, HAS_RELATIVE_PATH);
    lemma_strings_shift(first, second, from, shift, off, present, flag(f, IS_UNICODE));
    if let Some((s, next)) = string_if(present, first, off, flag(f, IS_UNICODE)) {
        lemma_dir_shift(first, second, from, shift, next, f, g, LinkModel { relative_path: s, ..link });
    }
}

/// So do all the strings of a link.
proof fn lemma_links_shift(
    first: Seq<u8>,
    second: Seq<u8>,
    from: int,
    shift: int,
    f: u32,
    g: u32,
    hidden: bool,
)
    requires
        ends_alike(first, second, from, shift),
        f % 4 == 0,
        g == f + 3,
    ensures
        link_strings(first, from, f, hidden) == link_strings(second, from + shift, g, hidden),
{
    lemma_same_flags(f, g);
    let present = flag(f, HAS_NAME);
    lemma_strings_shift(first, second, from, shift, from, present, flag(f, IS_UNICODE));
    if let Some((_, next)) = string_if(present, first, from, flag(f, IS_UNICODE)) {
        let link = LinkModel {
            relative_path: None,
            working_dir: None,
            arguments: None,
            icon_location: None,
            starts_hidden: hidden,
        };
        lemma_path_shift(first, second, from, shift, next, f, g, link);
    }
}

/// The two optional blocks of a shortcut: a target identifier list, whose size
/// does not count itself, and link information, whose size does.
pub open spec fn optional_blocks(ids: Seq<u8>, info: Seq<u8>) -> Seq<u8> {
    bytes::bytes16(ids.len() as u16) + ids + bytes::bytes32((info.len() + 4) as u32) + info
}

/// Where reading goes on behind the two blocks.
proof fn lemma_behind_the_blocks(head: Seq<u8>, ids: Seq<u8>, info: Seq<u8>, strings: Seq<u8>, g: u32)
    requires
        head.len() == LINK_HEADER_SIZE,
        ids.len() <= 0xFFFF,
        info.len() + 4 <= u32::MAX,
        g % 4 == 3,
    ensures
        behind_info(head + optional_blocks(ids, info) + strings, g) == Some(
            (LINK_HEADER_SIZE + optional_blocks(ids, info).len()) as int,
        ),
{
    let blocks = optional_blocks(ids, info);
    let data = head + blocks + strings;
    let from = LINK_HEADER_SIZE as int;
    let count = ids.len() as u16;
    assert(data[from] == bytes::bytes16(count)[0]);
    assert(data[from + 1] == bytes::bytes16(count)[1]);
    assert(bytes::word16(data, from) == Some(count));
    let at = from + 2 + ids.len();
    let size = (info.len() + 4) as u32;
    bytes::lemma_bytes32_round_trip(size, Seq::empty());
    let field = bytes::bytes32(size) + Seq::<u8>::empty();
    assert(data[at] == field[0]);
    assert(data[at + 1] == field[1]);
    assert(data[at + 2] == field[2]);
    assert(data[at + 3] == field[3]);
    assert(bytes::word32(data, at) == Some(size));
    assert(flag(g, HAS_TARGET_IDLIST));
    assert(flag(g, HAS_LINK_INFO));
    assert(behind_target(data, g) == Some(at));
}

/// The headers of the two shortcuts agree but for the two lowest flags.
proof fn lemma_flagged_header(plain: Seq<u8>, flagged: Seq<u8>, a: Seq<u8>, b: Seq<u8>)
    requires
        plain.len() == LINK_HEADER_SIZE,
        plain[20] % 4 == 0,
        flagged == plain.update(20, (plain[20] + 3) as u8),
    ensures
        is_link(plain + a) == is_link(flagged + b),
        bytes::word32(plain + a, 60) == bytes::word32(flagged + b, 60),
        bytes::word32(plain + a, 20)->0 % 4 == 0,
        bytes::word32(flagged + b, 20)->0 == bytes::word32(plain + a, 20)->0 + 3,
{
    let first = plain + a;
    let second = flagged + b;
    assert forall|i: int| 0 <= i < LINK_HEADER_SIZE && i != 20 implies first[i] == second[i] by {}
    assert(second[20] == first[20] + 3);
    assert(first.subrange(4, 20) =~= second.subrange(4, 20));
    assert(bytes::word32(first, 0) == bytes::word32(second, 0));
}

/// The strings of a shortcut are read from behind its blocks on.
proof fn lemma_read_from(data: Seq<u8>, off: int, flags: u32, hidden: bool)
    requires
        is_link(data),
        bytes::word32(data, 20)->0 == flags,
        hidden == (bytes::word32(data, 60) == Some(SHOW_MINIMISED)),
        behind_info(data, flags) == Some(off),
    ensures
        shell_link(data) == link_strings(data, off, flags, hidden),
{
}

/// Two shortcuts whose strings stand at the end of both read alike.
proof fn lemma_read_alike(first: Seq<u8>, second: Seq<u8>, from: int, shift: int)
    requires
        is_link(first) == is_link(second),
        bytes::word32(first, 60) == bytes::word32(second, 60),
        bytes::word32(first, 20)->0 % 4 == 0,
        bytes::word32(second, 20)->0 == bytes::word32(first, 20)->0 + 3,
        ends_alike(first, second, from, shift),
        behind_info(first, bytes::word32(first, 20)->0) == Some(from),
        behind_info(second, bytes::word32(second, 20)->0) == Some(from + shift),
    ensures
        shell_link(first) == shell_link(second),
{
    if is_link(first) {
        let f = bytes::word32(first, 20)->0;
        let g = bytes::word32(second, 20)->0;
        let hidden = bytes::word32(first, 60) == Some(SHOW_MINIMISED);
        lemma_links_shift(first, second, from, shift, f, g, hidden);
        lemma_read_from(first, from, f, hidden);
        lemma_read_from(second, from + shift, g, hidden);
    }
}

/// Where reading goes on without the blocks.
proof fn lemma_without_the_blocks(data: Seq<u8>, f: u32)
    requires
        f % 4 == 0,
    ensures
        behind_info(data, f) == Some(LINK_HEADER_SIZE as int),
{
    assert(!flag(f, HAS_TARGET_IDLIST));
    assert(!flag(f, HAS_LINK_INFO));
}

/// The strings stand at the end of both.
proof fn lemma_same_end(plain: Seq<u8>, flagged: Seq<u8>, blocks: Seq<u8>, strings: Seq<u8>)
    requires
        plain.len() == flagged.len(),
    ensures
        ends_alike(
            plain + strings,
            flagged + blocks + strings,
            plain.len() as int,
            blocks.len() as int,
        ),
{
    let first = plain + strings;
    let second = flagged + blocks + strings;
    assert(first.skip(plain.len() as int) =~= strings);
    assert(second.skip(plain.len() + blocks.len() as int) =~= strings);
}

/// The optional blocks of a shortcut are passed over whole: with them, a
/// shortcut reads as it does without them.
pub proof fn law_the_optional_blocks_are_passed_over(
    plain: Seq<u8>,
    flagged: Seq<u8>,
    ids: Seq<u8>,
    info: Seq<u8>,
    strings: Seq<u8>,
)
    requires
        plain.len() == LINK_HEADER_SIZE,
        plain[20] % 4 == 0,
        flagged == plain.update(20, (plain[20] + 3) as u8),
        ids.len() <= 0xFFFF,
        info.len() + 4 <= u32::MAX,
    ensures
        shell_link(flagged + (optional_blocks(ids, info) + strings)) == shell_link(plain + strings),
{
    let blocks = optional_blocks(ids, info);
    let first = plain + strings;
    let second = flagged + blocks + strings;
    assert(second =~= flagged + (blocks + strings));
    lemma_flagged_header(plain, flagged, strings, blocks + strings);
    lemma_same_end(plain, flagged, blocks, strings);
    lemma_behind_the_blocks(flagged, ids, info, strings, bytes::word32(second, 20)->0);
    lemma_without_the_blocks(first, bytes::word32(first, 20)->0);
    lemma_read_alike(first, second, LINK_HEADER_SIZE as int, blocks.len() as int);
}

/// The words and the look of a shortcut count only together with the tool that
/// it runs: without one, neither a hidden start nor an icon is reported.
pub proof fn law_looks_count_only_with_a_tool(link: LinkModel)
    ensures
        hidden_findings(link, false).len() == 0,
        icon_findings(link, false).len() == 0,
{
}

proof fn lemma_lines_are_bounded(lines: Seq<Seq<char>>)
    ensures
        finding::bounded(lines_findings(lines)),
    decreases lines.len(),
{
    if lines.len() > 0 {
        lemma_lines_are_bounded(lines.drop_last());
    }
}

proof fn lemma_format_is_bounded(ext: Seq<char>)
    ensures
        finding::bounded(format_findings(ext)),
{
}

proof fn lemma_link_is_bounded(data: Seq<u8>)
    ensures
        finding::bounded(embedded_link_findings(data)),
{
}

proof fn lemma_document_is_bounded(data: Seq<u8>, ext: Seq<char>)
    ensures
        finding::bounded(document_findings(data, ext)),
{
}

proof fn lemma_autorun_is_bounded(data: Seq<u8>, filename: Seq<char>)
    ensures
        finding::bounded(autorun_findings(data, filename)),
        finding::bounded(container_findings(data)),
{
}

proof fn lemma_url_is_bounded(data: Seq<u8>, ext: Seq<char>)
    ensures
        finding::bounded(named_url_findings(data, ext)),
{
    lemma_lines_are_bounded(text::lines(text::utf8_lossy(front(data, SHORTCUT_LIMIT as nat))));
}

proof fn lemma_three_are_bounded(
    a: Seq<FindingModel>,
    b: Seq<FindingModel>,
    c: Seq<FindingModel>,
)
    requires
        finding::bounded(a),
        finding::bounded(b),
        finding::bounded(c),
    ensures
        finding::bounded(a + b + c),
{
}

/// The risks of the findings are risks.
pub proof fn law_execution_risks_are_bounded(data: Seq<u8>, filename: Seq<char>)
    ensures
        finding::bounded(execution_findings(data, filename)),
{
    let ext = text::tail_extension(filename);
    lemma_format_is_bounded(ext);
    lemma_link_is_bounded(data);
    lemma_document_is_bounded(data, ext);
    lemma_autorun_is_bounded(data, filename);
    lemma_url_is_bounded(data, ext);
    lemma_three_are_bounded(
        format_findings(ext),
        embedded_link_findings(data),
        document_findings(data, ext),
    );
    lemma_three_are_bounded(
        autorun_findings(data, filename),
        named_url_findings(data, ext),
        container_findings(data),
    );
}

} // verus!
