//! Archive inspection: what a ZIP carries, without unpacking it.
//!
//! A ZIP lists every entry in the central directory at its end: names, sizes
//! and flags. Reading that index costs nothing, expands nothing, and shows what
//! extraction would put on the machine. Every offset in it comes from the file
//! under inspection, so nothing is read without a bounds check, the number of
//! entries is bounded, and a malformed archive is simply not a readable one.
use crate::bytes::{u16_at, u32_at, u64_at};
use crate::bytes;
use crate::numbers::{push_decimal, push_human_bytes};
use crate::numbers;
use crate::scanner::finding::{
    append_one, one_lines, severity_for, worst, Finding, FindingModel, Severity,
};
use crate::scanner::finding;
use crate::scanner::structure::{check_double_extension, ZIP_END};
use crate::scanner::structure;
use crate::sequences::{matches_at, rfind};
use crate::sequences;
use crate::text::{
    after_dot, base_start, chars_of, claimed_extension_of, from_utf8_lossy, is_one_of, quote, same,
    truncate,
};
use crate::text;
use vstd::prelude::*;
use vstd::slice::slice_subrange;

verus! {

/// Largest number of entries read.
pub const MAX_ENTRIES: u64 = 16_384;

/// Longest entry name read, in bytes.
pub const MAX_NAME_LEN: usize = 1024;

/// How far back from its end a file is searched for the end-of-central-directory
/// record: the record itself and the longest comment that can follow it.
pub const EOCD_SEARCH_WINDOW: usize = 65_557;

/// The signature of the ZIP64 locator.
pub const ZIP64_LOCATOR: [u8; 4] = [0x50, 0x4B, 0x06, 0x07];

/// The signature of the ZIP64 end-of-central-directory record.
pub const ZIP64_END: [u8; 4] = [0x50, 0x4B, 0x06, 0x06];

/// The signature of an entry of the central directory.
pub const CENTRAL_ENTRY: [u8; 4] = [0x50, 0x4B, 0x01, 0x02];

/// One entry, as described by the central directory.
#[derive(Debug)]
pub struct ZipEntry {
    /// Entry path as stored, decoded lossily.
    pub name: String,
    pub compressed_size: u64,
    pub uncompressed_size: u64,
    /// The entry's data is encrypted.
    pub encrypted: bool,
    /// The name ends in a separator, and there is no content.
    pub is_directory: bool,
}

/// What an entry says.
pub struct EntryModel {
    pub name: Seq<char>,
    pub compressed_size: u64,
    pub uncompressed_size: u64,
    pub encrypted: bool,
    pub is_directory: bool,
}

impl View for ZipEntry {
    type V = EntryModel;

    open spec fn view(&self) -> EntryModel {
        EntryModel {
            name: self.name@,
            compressed_size: self.compressed_size,
            uncompressed_size: self.uncompressed_size,
            encrypted: self.encrypted,
            is_directory: self.is_directory,
        }
    }
}

impl Clone for ZipEntry {
    fn clone(&self) -> (r: Self)
        ensures
            r@ == self@,
    {
        ZipEntry {
            name: self.name.clone(),
            compressed_size: self.compressed_size,
            uncompressed_size: self.uncompressed_size,
            encrypted: self.encrypted,
            is_directory: self.is_directory,
        }
    }
}

/// What the entries of a list say.
pub open spec fn entry_models(list: Seq<ZipEntry>) -> Seq<EntryModel> {
    Seq::new(list.len(), |i: int| list[i]@)
}

/// A list with one entry more says one thing more.
broadcast proof fn lemma_entries_push(list: Seq<ZipEntry>, e: ZipEntry)
    ensures
        #[trigger] entry_models(list.push(e)) == entry_models(list).push(e@),
{
    assert(entry_models(list.push(e)) =~= entry_models(list).push(e@));
}

/// The lower-cased extension of the last component of an entry's path.
pub open spec fn entry_extension(name: Seq<char>) -> Option<Seq<char>> {
    match text::after_last_dot(text::base_name(name)) {
        Some(e) => Some(text::lowercase(e)),
        None => None,
    }
}

/// The path has no separator.
pub open spec fn at_root(name: Seq<char>) -> bool {
    forall|i: int| 0 <= i < name.len() ==> !text::separator(#[trigger] name[i])
}

impl ZipEntry {
    /// The final path component, which is what a user sees after extraction.
    pub fn file_name(&self) -> (r: &str)
        ensures
            r@ == text::base_name(self.name@),
    {
        let chars = chars_of(self.name.as_str());
        let from: usize = base_start(chars.as_slice());
        self.name.as_str().substring_char(from, chars.len())
    }

    /// Lowercased final extension, if any.
    pub fn extension(&self) -> (r: Option<String>)
        ensures
            text::text_of(r) == entry_extension(self.name@),
    {
        let name = chars_of(self.file_name());
        match after_dot(name.as_slice()) {
            Some(e) => Some(e.to_lowercase()),
            None => None,
        }
    }

    /// True when the entry sits at the archive root rather than in a folder.
    pub fn is_at_root(&self) -> (r: bool)
        ensures
            r == at_root(self.name@),
    {
        let name = chars_of(self.name.as_str());
        let mut i: usize = 0;
        while i < name.len()
            invariant
                i <= name@.len(),
                name@ == self.name@,
                forall|j: int| 0 <= j < i ==> !text::separator(#[trigger] name@[j]),
            decreases name@.len() - i,
        {
            if name[i] == '/' || name[i] == '\\' {
                assert(text::separator(self.name@[i as int]));
                return false;
            }
            i += 1;
        }
        true
    }
}

// ---------------------------------------------------------------------------
// The central directory
// ---------------------------------------------------------------------------

/// Where the search for the end-of-central-directory record starts.
pub open spec fn search_start(data: Seq<u8>) -> int {
    if data.len() < EOCD_SEARCH_WINDOW {
        0
    } else {
        data.len() - EOCD_SEARCH_WINDOW
    }
}

/// Where the end-of-central-directory record stands: the last place in reach
/// that shows its signature.
pub open spec fn eocd_at(data: Seq<u8>) -> Option<int> {
    match sequences::last_occurrence(data.skip(search_start(data)), ZIP_END@) {
        Some(i) => Some(search_start(data) + i),
        None => None,
    }
}

/// Offset and number of entries of the central directory, as the ZIP64 record
/// gives them whose locator stands 20 bytes before the ordinary record.
pub open spec fn zip64_directory(data: Seq<u8>, eocd: int) -> Option<(int, int)> {
    if !sequences::occurs_at(data, ZIP64_LOCATOR@, eocd - 20) {
        None
    } else {
        match bytes::word64(data, eocd - 12) {
            Some(at) => if !sequences::occurs_at(data, ZIP64_END@, at as int) {
                None
            } else {
                match (bytes::word64(data, at + 32), bytes::word64(data, at + 48)) {
                    (Some(entries), Some(offset)) => if offset < data.len() {
                        Some((offset as int, entries as int))
                    } else {
                        None
                    },
                    _ => None,
                }
            },
            None => None,
        }
    }
}

/// Offset and number of entries of the central directory. Where a field holds
/// the mark that it overflowed, the ZIP64 record decides if there is one.
pub open spec fn directory(data: Seq<u8>) -> Option<(int, int)> {
    match eocd_at(data) {
        Some(eocd) => match (bytes::word16(data, eocd + 10), bytes::word32(data, eocd + 16)) {
            (Some(entries), Some(offset)) => if (offset == 0xFFFF_FFFF || entries == 0xFFFF)
                && zip64_directory(data, eocd) is Some {
                zip64_directory(data, eocd)
            } else if offset < data.len() {
                Some((offset as int, entries as int))
            } else {
                None
            },
            _ => None,
        },
        None => None,
    }
}

/// The numbers of an optional offset and count.
pub open spec fn directory_view(d: Option<(usize, u64)>) -> Option<(int, int)> {
    match d {
        Some((offset, entries)) => Some((offset as int, entries as int)),
        None => None,
    }
}

/// Locates the central directory through the ZIP64 record.
fn zip64_central_directory(data: &[u8], eocd: usize) -> (r: Option<(usize, u64)>)
    ensures
        directory_view(r) == zip64_directory(data@, eocd as int),
{
    if eocd < 20 || !matches_at(data, &ZIP64_LOCATOR, eocd - 20) {
        return None;
    }
    let at: u64 = match u64_at(data, eocd - 12) {
        Some(v) => v,
        None => return None,
    };
    if at >= data.len() as u64 || !matches_at(data, &ZIP64_END, at as usize) {
        return None;
    }
    let at: usize = at as usize;
    let n: usize = data.len();
    if n - at < 56 {
        return None;
    }
    match (u64_at(data, at + 32), u64_at(data, at + 48)) {
        (Some(entries), Some(offset)) => if offset < n as u64 {
            Some((offset as usize, entries))
        } else {
            None
        },
        _ => None,
    }
}

/// Locates the central directory: its offset and the number of entries.
pub fn find_central_directory(data: &[u8]) -> (r: Option<(usize, u64)>)
    ensures
        directory_view(r) == directory(data@),
        r matches Some((offset, _)) ==> offset < data@.len(),
{
    let n: usize = data.len();
    let from: usize = if n < EOCD_SEARCH_WINDOW {
        0
    } else {
        n - EOCD_SEARCH_WINDOW
    };
    let window = slice_subrange(data, from, n);
    assert(window@ =~= data@.skip(from as int));
    let eocd: usize = match rfind(window, &ZIP_END) {
        Some(i) => from + i,
        None => return None,
    };
    if n - eocd < 20 {
        assert(bytes::word32(data@, eocd + 16) is None);
        return None;
    }
    match (u16_at(data, eocd + 10), u32_at(data, eocd + 16)) {
        (Some(entries), Some(offset)) => {
            if offset == 0xFFFF_FFFF || entries == 0xFFFF {
                if let Some(found) = zip64_central_directory(data, eocd) {
                    return Some(found);
                }
            }
            if offset as u64 >= n as u64 {
                return None;
            }
            Some((offset as usize, entries as u64))
        },
        _ => None,
    }
}

// ---------------------------------------------------------------------------
// Entries
// ---------------------------------------------------------------------------

/// The contents of the ZIP64 field among the extra fields from index `off`
/// on.
pub open spec fn zip64_field(extra: Seq<u8>, off: int) -> Option<Seq<u8>>
    decreases extra.len() - off,
{
    if off < 0 || off + 4 > extra.len() {
        None
    } else {
        let id = bytes::word16(extra, off)->0;
        let end = off + 4 + bytes::word16(extra, off + 2)->0;
        if end > extra.len() {
            None
        } else if id == 1 {
            Some(extra.subrange(off + 4, end))
        } else {
            zip64_field(extra, end)
        }
    }
}

/// The sizes that the ZIP64 field gives. Only those that overflowed are
/// present, the uncompressed one first.
pub open spec fn extended_sizes(extra: Seq<u8>, need_uncompressed: bool, need_compressed: bool) -> (
    Option<u64>,
    Option<u64>,
) {
    match zip64_field(extra, 0) {
        Some(body) => (
            if need_uncompressed {
                bytes::word64(body, 0)
            } else {
                None
            },
            if need_compressed {
                bytes::word64(
                    body,
                    if need_uncompressed {
                        8
                    } else {
                        0
                    },
                )
            } else {
                None
            },
        ),
        None => (None, None),
    }
}

/// Reads the sizes from the ZIP64 field of an entry.
fn zip64_sizes(extra: &[u8], need_uncompressed: bool, need_compressed: bool) -> (r: (
    Option<u64>,
    Option<u64>,
))
    ensures
        r == extended_sizes(extra@, need_uncompressed, need_compressed),
{
    let n: usize = extra.len();
    let mut off: usize = 0;
    while off <= n && n - off >= 4
        invariant
            n == extra@.len(),
            off <= n,
            zip64_field(extra@, 0) == zip64_field(extra@, off as int),
        decreases n - off,
    {
        let id: u16 = match u16_at(extra, off) {
            Some(v) => v,
            None => 0,
        };
        let size: usize = match u16_at(extra, off + 2) {
            Some(v) => v as usize,
            None => 0,
        };
        let start: usize = off + 4;
        if n - start < size {
            return (None, None);
        }
        if id == 1 {
            let body = slice_subrange(extra, start, start + size);
            let uncompressed = if need_uncompressed {
                u64_at(body, 0)
            } else {
                None
            };
            let compressed = if need_compressed {
                u64_at(
                    body,
                    if need_uncompressed {
                        8
                    } else {
                        0
                    },
                )
            } else {
                None
            };
            return (uncompressed, compressed);
        }
        off = start + size;
    }
    (None, None)
}

/// An entry of the central directory that starts at `off` lies within the
/// data up to the end of its name.
pub open spec fn entry_fits(data: Seq<u8>, off: int) -> bool {
    &&& off + 46 <= data.len()
    &&& off + 46 + bytes::word16(data, off + 28)->0 <= data.len()
}

/// The extra fields of the entry that starts at `off`; none where they do not
/// lie within the data.
pub open spec fn entry_extra(data: Seq<u8>, off: int) -> Seq<u8> {
    let start = off + 46 + bytes::word16(data, off + 28)->0;
    let end = start + bytes::word16(data, off + 30)->0;
    if end <= data.len() {
        data.subrange(start, end)
    } else {
        Seq::empty()
    }
}

/// The name of the entry that starts at `off`.
pub open spec fn entry_name(data: Seq<u8>, off: int) -> Seq<char> {
    let len = bytes::word16(data, off + 28)->0;
    text::utf8_lossy(
        data.subrange(
            off + 46,
            off + 46 + if len < MAX_NAME_LEN {
                len as int
            } else {
                MAX_NAME_LEN as int
            },
        ),
    )
}

/// An entry is a directory: its name ends in a separator, and it has no
/// content. What has content is a file, whatever its name looks like.
pub open spec fn folder(name: Seq<char>, compressed_size: u64, uncompressed_size: u64) -> bool {
    name.len() > 0 && text::separator(name.last()) && compressed_size == 0 && uncompressed_size == 0
}

/// The entry that starts at `off`.
pub open spec fn entry_at(data: Seq<u8>, off: int) -> EntryModel {
    let compressed = bytes::word32(data, off + 20)->0;
    let uncompressed = bytes::word32(data, off + 24)->0;
    let need_uncompressed = uncompressed == 0xFFFF_FFFF;
    let need_compressed = compressed == 0xFFFF_FFFF;
    let sizes = if need_uncompressed || need_compressed {
        extended_sizes(entry_extra(data, off), need_uncompressed, need_compressed)
    } else {
        (None, None)
    };
    let name = entry_name(data, off);
    let compressed_size = match sizes.1 {
        Some(v) => v,
        None => compressed as u64,
    };
    let uncompressed_size = match sizes.0 {
        Some(v) => v,
        None => uncompressed as u64,
    };
    EntryModel {
        name,
        compressed_size,
        uncompressed_size,
        encrypted: bytes::word16(data, off + 8)->0 % 2 == 1,
        is_directory: folder(name, compressed_size, uncompressed_size),
    }
}

/// Where the entry behind the one that starts at `off` starts.
pub open spec fn next_entry(data: Seq<u8>, off: int) -> int {
    off + 46 + bytes::word16(data, off + 28)->0 + bytes::word16(data, off + 30)->0
        + bytes::word16(data, off + 32)->0
}

/// The entries from offset `off` on, at most `n` of them. They end where the
/// signature of an entry is missing; an entry that does not lie within the
/// data makes the archive unreadable.
pub open spec fn entries_from(data: Seq<u8>, off: int, n: nat) -> Option<Seq<EntryModel>>
    decreases n,
{
    if n == 0 {
        Some(Seq::empty())
    } else if off + 4 > data.len() {
        None
    } else if !sequences::occurs_at(data, CENTRAL_ENTRY@, off) {
        Some(Seq::empty())
    } else if !entry_fits(data, off) {
        None
    } else {
        match entries_from(data, next_entry(data, off), (n - 1) as nat) {
            Some(rest) => Some(seq![entry_at(data, off)] + rest),
            None => None,
        }
    }
}

/// The entries of a readable archive. One that declares entries and shows none
/// where they should start is not readable; only one that declares none is
/// empty.
pub open spec fn archive_entries(data: Seq<u8>) -> Option<Seq<EntryModel>> {
    match directory(data) {
        Some((offset, declared)) => if declared > 0 && !sequences::occurs_at(
            data,
            CENTRAL_ENTRY@,
            offset,
        ) {
            None
        } else {
            entries_from(
                data,
                offset,
                if declared < MAX_ENTRIES {
                    declared as nat
                } else {
                    MAX_ENTRIES as nat
                },
            )
        },
        None => None,
    }
}

/// What an optional list of entries says.
pub open spec fn entries_view(list: Option<Vec<ZipEntry>>) -> Option<Seq<EntryModel>> {
    match list {
        Some(v) => Some(entry_models(v@)),
        None => None,
    }
}

/// Reads the entry that starts at `off`, and where the next one starts.
fn read_entry(data: &[u8], off: usize) -> (r: Option<(ZipEntry, u128)>)
    requires
        sequences::occurs_at(data@, CENTRAL_ENTRY@, off as int),
    ensures
        r is Some <==> entry_fits(data@, off as int),
        r matches Some((e, next)) ==> e@ == entry_at(data@, off as int) && next == next_entry(
            data@,
            off as int,
        ),
{
    let n: usize = data.len();
    if n - off < 46 {
        return None;
    }
    match (
        u16_at(data, off + 8),
        u32_at(data, off + 20),
        u32_at(data, off + 24),
        u16_at(data, off + 28),
        u16_at(data, off + 30),
        u16_at(data, off + 32),
    ) {
        (
            Some(flags),
            Some(compressed),
            Some(uncompressed),
            Some(name_len),
            Some(extra_len),
            Some(comment_len),
        ) => {
            let start: usize = off + 46;
            let name_len: usize = name_len as usize;
            if n - start < name_len {
                return None;
            }
            let kept: usize = if name_len < MAX_NAME_LEN {
                name_len
            } else {
                MAX_NAME_LEN
            };
            let name = from_utf8_lossy(slice_subrange(data, start, start + kept));
            let extra_start: usize = start + name_len;
            let extra_len: usize = extra_len as usize;
            let extra: &[u8] = if n - extra_start >= extra_len {
                slice_subrange(data, extra_start, extra_start + extra_len)
            } else {
                slice_subrange(data, 0, 0)
            };
            assert(extra@ =~= entry_extra(data@, off as int));
            let need_uncompressed = uncompressed == 0xFFFF_FFFF;
            let need_compressed = compressed == 0xFFFF_FFFF;
            let sizes = if need_uncompressed || need_compressed {
                zip64_sizes(extra, need_uncompressed, need_compressed)
            } else {
                (None, None)
            };
            let chars = chars_of(name.as_str());
            let named_folder = chars.len() > 0 && (chars[chars.len() - 1] == '/' || chars[chars.len()
                - 1] == '\\');
            let compressed_size: u64 = match sizes.1 {
                Some(v) => v,
                None => compressed as u64,
            };
            let uncompressed_size: u64 = match sizes.0 {
                Some(v) => v,
                None => uncompressed as u64,
            };
            let entry = ZipEntry {
                name,
                compressed_size,
                uncompressed_size,
                encrypted: flags % 2 == 1,
                is_directory: named_folder && compressed_size == 0 && uncompressed_size == 0,
            };
            Some((entry, extra_start as u128 + extra_len as u128 + comment_len as u128))
        },
        _ => None,
    }
}

/// Reads the central directory and returns every entry it describes.
///
/// Nothing means that the data is no readable ZIP, which is not the same as a
/// readable one without entries.
pub fn list_entries(data: &[u8]) -> (r: Option<Vec<ZipEntry>>)
    ensures
        entries_view(r) == archive_entries(data@),
{
    broadcast use lemma_entries_push;

    let (offset, declared) = match find_central_directory(data) {
        Some(d) => d,
        None => return None,
    };
    if declared > 0 && !matches_at(data, &CENTRAL_ENTRY, offset) {
        return None;
    }
    let limit: u64 = if declared < MAX_ENTRIES {
        declared
    } else {
        MAX_ENTRIES
    };
    let n: usize = data.len();
    let mut out: Vec<ZipEntry> = Vec::new();
    let mut off: u128 = offset as u128;
    let mut left: u64 = limit;
    let ghost whole = entries_from(data@, offset as int, limit as nat);
    proof {
        assert(entry_models(out@) =~= Seq::<EntryModel>::empty());
        if let Some(rest) = whole {
            assert(Seq::<EntryModel>::empty() + rest =~= rest);
        }
    }
    while left > 0
        invariant
            n == data@.len(),
            off <= 0x1_0000_0000_0000_0000 + 0x1_0000_0000,
            whole == archive_entries(data@),
            whole == joined_entries(
                entry_models(out@),
                entries_from(data@, off as int, left as nat),
            ),
        decreases left,
    {
        if off + 4 > n as u128 {
            return None;
        }
        let at: usize = off as usize;
        if !matches_at(data, &CENTRAL_ENTRY, at) {
            assert(entry_models(out@) + Seq::<EntryModel>::empty() =~= entry_models(out@));
            return Some(out);
        }
        match read_entry(data, at) {
            Some((entry, next)) => {
                let ghost before = entry_models(out@);
                let ghost e = entry@;
                out.push(entry);
                proof {
                    if let Some(rest) = entries_from(data@, next as int, (left - 1) as nat) {
                        assert(before + (seq![e] + rest) =~= before.push(e) + rest);
                    }
                }
                off = next;
                left -= 1;
            },
            None => return None,
        }
    }
    assert(entry_models(out@) + Seq::<EntryModel>::empty() =~= entry_models(out@));
    Some(out)
}

/// Entries already read, and those that are still to come.
spec fn joined_entries(done: Seq<EntryModel>, rest: Option<Seq<EntryModel>>) -> Option<
    Seq<EntryModel>,
> {
    match rest {
        Some(more) => Some(done + more),
        None => None,
    }
}

// ---------------------------------------------------------------------------
// What entries give away
// ---------------------------------------------------------------------------

/// Extensions that execute when opened: the extension, what it is, and the
/// risk of finding it inside an archive. An archive legitimately contains
/// programs, so the ordinary ones weigh little.
pub const EXECUTABLE_ENTRIES: [(&'static str, &'static str, i64); 23] = [
    ("exe", "a Windows program", 1_500),
    ("msi", "a Windows installer", 1_500),
    ("dll", "a Windows code library", 1_500),
    ("com", "a DOS/Windows program", 3_000),
    ("scr", "a screensaver, which is an ordinary program with a different extension", 5_000),
    ("cpl", "a Control Panel applet, which is an ordinary program", 5_000),
    ("pif", "a shortcut that Windows executes as a program", 5_500),
    ("lnk", "a Windows shortcut, which can run any command while showing any icon", 6_000),
    ("js", "a script Windows runs without asking", 4_000),
    ("jse", "an encoded script Windows runs without asking", 6_000),
    ("vbs", "a Visual Basic script", 5_000),
    ("vbe", "an encoded Visual Basic script", 6_000),
    ("wsf", "a Windows Script Host file", 5_500),
    ("wsh", "a Windows Script Host settings file", 5_000),
    ("hta", "an HTML Application, which runs with full local privileges", 6_000),
    ("ps1", "a PowerShell script", 4_500),
    ("bat", "a batch file", 4_000),
    ("cmd", "a batch file", 4_000),
    ("reg", "a registry edit applied on double-click", 3_500),
    ("iso", "a disc image, which mounts as a drive when opened", 4_000),
    ("img", "a disc image, which mounts as a drive when opened", 4_000),
    ("vhd", "a virtual disk, which mounts as a drive when opened", 4_000),
    ("vhdx", "a virtual disk, which mounts as a drive when opened", 4_000),
];

/// Row `k` of the executable extensions is the first one for `ext`.
pub open spec fn executable_row_at(ext: Seq<char>, k: int) -> bool {
    &&& 0 <= k < EXECUTABLE_ENTRIES@.len()
    &&& EXECUTABLE_ENTRIES@[k].0@ == ext
    &&& forall|j: int| 0 <= j < k ==> (#[trigger] EXECUTABLE_ENTRIES@[j]).0@ != ext
}

/// The row of the executable extensions for `ext`.
pub open spec fn executable_row(ext: Seq<char>) -> Option<int> {
    if exists|k: int| executable_row_at(ext, k) {
        Some(choose|k: int| executable_row_at(ext, k))
    } else {
        None
    }
}

/// The row of the executable extensions into which an entry falls.
pub open spec fn entry_row(name: Seq<char>) -> Option<int> {
    match entry_extension(name) {
        Some(ext) => executable_row(ext),
        None => None,
    }
}

/// The row of the executable extensions for an extension.
pub fn executable_entry(ext: &str) -> (r: Option<usize>)
    ensures
        r is None <==> executable_row(ext@) is None,
        r matches Some(k) ==> k < EXECUTABLE_ENTRIES@.len() && executable_row(ext@) == Some(
            k as int,
        ),
{
    let mut k: usize = 0;
    while k < EXECUTABLE_ENTRIES.len()
        invariant
            k <= EXECUTABLE_ENTRIES@.len(),
            forall|j: int| 0 <= j < k ==> (#[trigger] EXECUTABLE_ENTRIES@[j]).0@ != ext@,
        decreases EXECUTABLE_ENTRIES@.len() - k,
    {
        if same(EXECUTABLE_ENTRIES[k].0, ext) {
            assert(executable_row_at(ext@, k as int));
            assert(forall|m: int| executable_row_at(ext@, m) ==> m == k);
            return Some(k);
        }
        k += 1;
    }
    None
}

/// The row of the executable extensions into which an entry falls.
fn row_of(entry: &ZipEntry) -> (r: Option<usize>)
    ensures
        r is None <==> entry_row(entry.name@) is None,
        r matches Some(k) ==> k < EXECUTABLE_ENTRIES@.len() && entry_row(entry.name@) == Some(
            k as int,
        ),
{
    match entry.extension() {
        Some(ext) => executable_entry(ext.as_str()),
        None => None,
    }
}

/// A component of the path is `..`.
pub open spec fn climbs(name: Seq<char>) -> bool {
    exists|i: int| dot_dot_at(name, i)
}

/// The component of the path that starts at `i` is `..`.
pub open spec fn dot_dot_at(name: Seq<char>, i: int) -> bool {
    &&& 0 <= i
    &&& i + 2 <= name.len()
    &&& name[i] == '.'
    &&& name[i + 1] == '.'
    &&& i == 0 || text::separator(name[i - 1])
    &&& i + 2 == name.len() || text::separator(name[i + 2])
}

/// Extracting the entry writes outside the chosen folder: the path climbs, is
/// absolute, or names a drive.
pub open spec fn escapes(name: Seq<char>) -> bool {
    ||| climbs(name)
    ||| name.len() > 0 && text::separator(name[0])
    ||| name.len() > 1 && (name[0] as u32) < 0x80 && name[1] == ':'
}

/// Whether extracting an entry writes outside the chosen folder.
pub fn does_escape(name: &str) -> (r: bool)
    ensures
        r == escapes(name@),
{
    let s = chars_of(name);
    let n: usize = s.len();
    if n > 0 && (s[0] == '/' || s[0] == '\\') {
        return true;
    }
    if n > 1 && (s[0] as u32) < 0x80 && s[1] == ':' {
        return true;
    }
    if n < 2 {
        assert(!climbs(name@));
        return false;
    }
    let mut i: usize = 0;
    while i < n - 1
        invariant
            n >= 2,
            n == s@.len(),
            s@ == name@,
            i <= n - 1,
            forall|j: int| j < i ==> !dot_dot_at(name@, j),
        decreases n - i,
    {
        if s[i] == '.' && s[i + 1] == '.' && (i == 0 || s[i - 1] == '/' || s[i - 1] == '\\') && (i
            + 2 == n || s[i + 2] == '/' || s[i + 2] == '\\') {
            assert(dot_dot_at(name@, i as int));
            return true;
        }
        i += 1;
    }
    assert(forall|j: int| !dot_dot_at(name@, j));
    false
}

/// A character that changes the direction in which text is displayed.
pub open spec fn bidi_override(c: char) -> bool {
    ||| '\u{202A}' <= c <= '\u{202E}'
    ||| '\u{2066}' <= c <= '\u{2069}'
    ||| c == '\u{200E}'
    ||| c == '\u{200F}'
}

/// A name with a character that changes the direction of display.
pub open spec fn rigged(name: Seq<char>) -> bool {
    exists|i: int| 0 <= i < name.len() && bidi_override(#[trigger] name[i])
}

/// True when a name carries a Unicode character that reverses display order.
pub fn contains_bidi_override(name: &str) -> (r: bool)
    ensures
        r == rigged(name@),
{
    let s = chars_of(name);
    let mut i: usize = 0;
    while i < s.len()
        invariant
            i <= s@.len(),
            s@ == name@,
            forall|j: int| 0 <= j < i ==> !bidi_override(#[trigger] name@[j]),
        decreases s@.len() - i,
    {
        let c = s[i];
        if ('\u{202A}' <= c && c <= '\u{202E}') || ('\u{2066}' <= c && c <= '\u{2069}') || c
            == '\u{200E}' || c == '\u{200F}' {
            assert(bidi_override(name@[i as int]));
            return true;
        }
        i += 1;
    }
    false
}

/// What an entry can give away.
#[derive(Clone, Copy, PartialEq, Eq, Structural)]
pub enum Sign {
    /// Extracting it writes outside the chosen folder.
    Escapes,
    /// Its name is displayed in another order than it is stored.
    Rigged,
    /// Its name shows a document's extension before an executable one.
    Disguised,
    /// Its data is encrypted.
    Encrypted,
    /// It runs when opened.
    Executes,
    /// It runs when opened, and sits at the archive root.
    ExecutesFromRoot,
}

/// An entry shows a sign.
pub open spec fn shows(e: EntryModel, sign: Sign) -> bool {
    match sign {
        Sign::Escapes => escapes(e.name),
        Sign::Rigged => rigged(e.name),
        Sign::Disguised => structure::disguise(text::base_name(e.name)) is Some,
        Sign::Encrypted => e.encrypted,
        Sign::Executes => entry_row(e.name) is Some,
        Sign::ExecutesFromRoot => at_root(e.name) && entry_row(e.name) is Some,
    }
}

/// The entries that show a sign.
pub open spec fn showing(list: Seq<EntryModel>, sign: Sign) -> Seq<EntryModel>
    decreases list.len(),
{
    if list.len() == 0 {
        list
    } else if shows(list.last(), sign) {
        showing(list.drop_last(), sign).push(list.last())
    } else {
        showing(list.drop_last(), sign)
    }
}

/// The entries that are files.
pub open spec fn files_among(list: Seq<EntryModel>) -> Seq<EntryModel>
    decreases list.len(),
{
    if list.len() == 0 {
        list
    } else if !list.last().is_directory {
        files_among(list.drop_last()).push(list.last())
    } else {
        files_among(list.drop_last())
    }
}

/// Whether an entry shows a sign.
fn does_show(e: &ZipEntry, sign: Sign) -> (r: bool)
    ensures
        r == shows(e@, sign),
{
    match sign {
        Sign::Escapes => does_escape(e.name.as_str()),
        Sign::Rigged => contains_bidi_override(e.name.as_str()),
        Sign::Disguised => check_double_extension(e.file_name()).is_some(),
        Sign::Encrypted => e.encrypted,
        Sign::Executes => row_of(e).is_some(),
        Sign::ExecutesFromRoot => e.is_at_root() && row_of(e).is_some(),
    }
}

/// The entries that show a sign.
fn select(list: &[ZipEntry], sign: Sign) -> (r: Vec<ZipEntry>)
    ensures
        entry_models(r@) == showing(entry_models(list@), sign),
{
    broadcast use lemma_entries_push;

    let mut out: Vec<ZipEntry> = Vec::new();
    let mut i: usize = 0;
    assert(entry_models(out@) =~= showing(entry_models(list@).take(0), sign));
    while i < list.len()
        invariant
            i <= list@.len(),
            entry_models(out@) == showing(entry_models(list@).take(i as int), sign),
        decreases list@.len() - i,
    {
        proof {
            let longer = entry_models(list@).take(i + 1);
            assert(longer.drop_last() =~= entry_models(list@).take(i as int));
            assert(longer.last() == list@[i as int]@);
        }
        if does_show(&list[i], sign) {
            out.push(list[i].clone());
        }
        i += 1;
    }
    assert(entry_models(list@).take(list@.len() as int) =~= entry_models(list@));
    out
}

/// The entries that are files.
fn files_of(list: &[ZipEntry]) -> (r: Vec<ZipEntry>)
    ensures
        entry_models(r@) == files_among(entry_models(list@)),
{
    broadcast use lemma_entries_push;

    let mut out: Vec<ZipEntry> = Vec::new();
    let mut i: usize = 0;
    assert(entry_models(out@) =~= files_among(entry_models(list@).take(0)));
    while i < list.len()
        invariant
            i <= list@.len(),
            entry_models(out@) == files_among(entry_models(list@).take(i as int)),
        decreases list@.len() - i,
    {
        proof {
            let longer = entry_models(list@).take(i + 1);
            assert(longer.drop_last() =~= entry_models(list@).take(i as int));
            assert(longer.last() == list@[i as int]@);
        }
        if !list[i].is_directory {
            out.push(list[i].clone());
        }
        i += 1;
    }
    assert(entry_models(list@).take(list@.len() as int) =~= entry_models(list@));
    out
}

// ---------------------------------------------------------------------------
// Findings
// ---------------------------------------------------------------------------

/// Longest part of an entry's name that is shown.
pub const SHOWN_NAME: usize = 120;

pub const ESCAPE_TITLE: &'static str = "Archive tries to write files outside the folder you extract it to";

pub const ESCAPE_WHY: &'static str = "Extracting this would place files somewhere you did not choose — a startup folder, \
     a system directory, or over an existing program. Archiving tools do not create paths \
     like this; it has to be done deliberately.";

pub const RIGGED_TITLE: &'static str = "Archive contains a file whose name is rigged to display incorrectly";

pub const RIGGED_WHY: &'static str = "That character reverses how the rest of the name is displayed, so a program can be \
     shown to you as a PDF or an image. What you see in the extraction window is not what \
     Windows will run. There is no legitimate use for this in a filename.";

pub const DISGUISED_TITLE: &'static str = "Archive contains a program disguised as a document";

pub const DISGUISED_WHY_1: &'static str = "Windows hides known file extensions by default, so after extraction this usually \
     displays as a harmless .";

pub const DISGUISED_WHY_2: &'static str = " file with a matching icon. Double-clicking it \
     runs a .";

pub const DISGUISED_WHY_3: &'static str = " program. Putting it inside an archive is how it gets past \
     scanners that only look at the outer file.";

pub const ENCRYPTED_TITLE: &'static str = "Archive contents are password-protected and cannot be examined";

pub const ENCRYPTED_WHY: &'static str = "Nothing can scan inside an encrypted archive — not Aegis, and not the antivirus on \
     your machine either. Sending a password-protected archive with the password written \
     in the accompanying message is a standard way of delivering malware past automated \
     scanning, because the only thing that can open it is a person.";

pub const BOMB_TITLE: &'static str = "Archive expands to an enormous size when extracted";

pub const BOMB_WHY: &'static str = "An archive this small that unpacks to this much is a decompression bomb. Extracting it \
     fills the disk and can hang whatever opens it. Aegis reads the sizes from the archive's \
     index rather than unpacking, so nothing was expanded to find this.";

pub const DELIVERY_TITLE: &'static str = "Archive contains nothing but a program to run";

pub const DELIVERY_WHY: &'static str = "An archive holding one runnable file and little else is how malware is delivered: \
     the archive gets it past scanning, and extracting leaves the program sitting in \
     your Downloads folder ready to double-click. Installers and legitimate bundles \
     normally carry many supporting files.";

pub const PROGRAMS_TITLE: &'static str = "Archive contains programs or scripts";

pub const PROGRAMS_WHY: &'static str = "This is normal for installers and software packages. It is reported so you know \
     what extracting the archive would put on your machine, not because it is \
     suspicious by itself.";

pub const MASKED_TITLE: &'static str = "File claims to be a document but is an archive of programs";

pub const MASKED_WHY: &'static str = "Two separate disguises at once: the extension does not match the format, and what is \
     actually inside is runnable code. Neither happens by accident.";

/// Extensions of documents as which an archive of programs must not pose.
pub const MASK_EXTENSIONS: [&'static str; 6] = ["pdf", "doc", "txt", "rtf", "jpg", "png"];

/// What a decompression bomb expands to at least.
pub const MIN_EXPANDED: u64 = 1_073_741_824;

/// By how much a decompression bomb expands at least.
pub const MIN_RATIO: u64 = 100;

/// The finding about so many entries that escape, the first shown as `shown`.
pub open spec fn escape_report(hits: nat, total: nat, shown: Seq<char>) -> FindingModel {
    finding::finding(
        Severity::Critical,
        ESCAPE_TITLE@,
        numbers::decimal(hits) + " of "@ + numbers::decimal(total)
            + " entries escape the extraction directory, including "@ + shown + "."@,
        ESCAPE_WHY@,
        8_000,
    )
}

/// The finding about so many entries that escape, the first shown as `shown`.
pub fn escape_finding(hits: usize, total: usize, shown: &str) -> (r: Finding)
    ensures
        r@ == escape_report(hits as nat, total as nat, shown@),
{
    let mut detail: String = String::new();
    push_decimal(&mut detail, hits as u64);
    assert(detail@ =~= numbers::decimal(hits as nat));
    detail.append(" of ");
    push_decimal(&mut detail, total as u64);
    detail.append(" entries escape the extraction directory, including ");
    detail.append(shown);
    detail.append(".");
    Finding::new(
        Severity::Critical,
        ESCAPE_TITLE.to_string(),
        detail,
        ESCAPE_WHY.to_string(),
        8_000,
    )
}

/// What is to be reported of entries that escape.
pub open spec fn escape_findings(files: Seq<EntryModel>) -> Seq<FindingModel> {
    let hits = showing(files, Sign::Escapes);
    if hits.len() == 0 {
        Seq::empty()
    } else {
        seq![
            escape_report(
                hits.len(),
                files.len(),
                text::quoted(text::shortened(hits[0].name, SHOWN_NAME as nat)),
            ),
        ]
    }
}

/// Reports entries that escape.
fn check_escapes(files: &[ZipEntry]) -> (r: Option<Finding>)
    ensures
        finding::optional(r) == escape_findings(entry_models(files@)),
{
    let hits = select(files, Sign::Escapes);
    if hits.len() == 0 {
        return None;
    }
    assert(entry_models(hits@)[0] == hits@[0]@);
    let shown = quote(truncate(hits[0].name.as_str(), SHOWN_NAME).as_str());
    Some(escape_finding(hits.len(), files.len(), shown.as_str()))
}

/// A name in which each of three direction marks is spelled out.
pub open spec fn marks_spelled_out(name: Seq<char>) -> Seq<char>
    decreases name.len(),
{
    if name.len() == 0 {
        name
    } else {
        let before = marks_spelled_out(name.drop_last());
        let c = name.last();
        if c == '\u{202E}' || c == '\u{202D}' || c == '\u{200F}' {
            before + "<RLO>"@
        } else {
            before.push(c)
        }
    }
}

/// Spells out the direction marks of a name.
fn spell_out_marks(name: &str) -> (r: String)
    ensures
        r@ == marks_spelled_out(name@),
{
    let s = chars_of(name);
    let mut out: String = String::new();
    let mut i: usize = 0;
    assert(s@.take(0) =~= Seq::<char>::empty());
    while i < s.len()
        invariant
            i <= s@.len(),
            out@ == marks_spelled_out(s@.take(i as int)),
        decreases s@.len() - i,
    {
        proof {
            let longer = s@.take(i + 1);
            assert(longer.drop_last() =~= s@.take(i as int));
            assert(longer.last() == s@[i as int]);
        }
        let c = s[i];
        if c == '\u{202E}' || c == '\u{202D}' || c == '\u{200F}' {
            out.append("<RLO>");
        } else {
            out.push(c);
        }
        i += 1;
    }
    assert(s@.take(s@.len() as int) =~= name@);
    out
}

/// The finding about an entry with a rigged name, shown as `shown`.
pub open spec fn rigged_report(shown: Seq<char>) -> FindingModel {
    finding::finding(
        Severity::Critical,
        RIGGED_TITLE@,
        "Entry "@ + shown + " contains a Unicode text-direction override character."@,
        RIGGED_WHY@,
        8_500,
    )
}

/// The finding about an entry with a rigged name, shown as `shown`.
pub fn rigged_finding(shown: &str) -> (r: Finding)
    ensures
        r@ == rigged_report(shown@),
{
    let mut detail: String = "Entry ".to_string();
    detail.append(shown);
    detail.append(" contains a Unicode text-direction override character.");
    Finding::new(
        Severity::Critical,
        RIGGED_TITLE.to_string(),
        detail,
        RIGGED_WHY.to_string(),
        8_500,
    )
}

/// What is to be reported of entries with a rigged name.
pub open spec fn rigged_findings(files: Seq<EntryModel>) -> Seq<FindingModel> {
    let hits = showing(files, Sign::Rigged);
    if hits.len() == 0 {
        Seq::empty()
    } else {
        seq![
            rigged_report(
                text::quoted(text::shortened(marks_spelled_out(hits[0].name), SHOWN_NAME as nat)),
            ),
        ]
    }
}

/// Reports entries with a rigged name.
fn check_rigged(files: &[ZipEntry]) -> (r: Option<Finding>)
    ensures
        finding::optional(r) == rigged_findings(entry_models(files@)),
{
    let hits = select(files, Sign::Rigged);
    if hits.len() == 0 {
        return None;
    }
    assert(entry_models(hits@)[0] == hits@[0]@);
    let shown = truncate(spell_out_marks(hits[0].name.as_str()).as_str(), SHOWN_NAME);
    Some(rigged_finding(quote(shown.as_str()).as_str()))
}

/// The finding about so many entries with two extensions, the first shown as
/// `shown`.
pub open spec fn disguised_report(
    hits: nat,
    shown: Seq<char>,
    visible: Seq<char>,
    actual: Seq<char>,
) -> FindingModel {
    finding::finding(
        Severity::Critical,
        DISGUISED_TITLE@,
        "Entry "@ + shown + " ends in ."@ + actual + ", but the ."@ + visible
            + " before it is what draws the eye."@ + (if hits > 1 {
            " "@ + numbers::decimal(hits) + " entries do this."@
        } else {
            Seq::empty()
        }),
        DISGUISED_WHY_1@ + visible + DISGUISED_WHY_2@ + actual + DISGUISED_WHY_3@,
        7_500,
    )
}

/// The finding about so many entries with two extensions, the first shown as
/// `shown`.
pub fn disguised_finding(hits: usize, shown: &str, visible: &str, actual: &str) -> (r: Finding)
    ensures
        r@ == disguised_report(hits as nat, shown@, visible@, actual@),
{
    let mut detail: String = "Entry ".to_string();
    detail.append(shown);
    detail.append(" ends in .");
    detail.append(actual);
    detail.append(", but the .");
    detail.append(visible);
    detail.append(" before it is what draws the eye.");
    let ghost head = detail@;
    if hits > 1 {
        let mut extra: String = " ".to_string();
        push_decimal(&mut extra, hits as u64);
        extra.append(" entries do this.");
        detail.append(extra.as_str());
    } else {
        assert(head + Seq::<char>::empty() =~= head);
    }
    let mut why: String = DISGUISED_WHY_1.to_string();
    why.append(visible);
    why.append(DISGUISED_WHY_2);
    why.append(actual);
    why.append(DISGUISED_WHY_3);
    Finding::new(Severity::Critical, DISGUISED_TITLE.to_string(), detail, why, 7_500)
}

/// What is to be reported of entries with two extensions.
pub open spec fn disguised_findings(files: Seq<EntryModel>) -> Seq<FindingModel> {
    let hits = showing(files, Sign::Disguised);
    if hits.len() == 0 {
        Seq::empty()
    } else {
        let name = text::base_name(hits[0].name);
        let (visible, actual) = structure::disguise(name)->0;
        seq![
            disguised_report(
                hits.len(),
                text::quoted(text::shortened(name, SHOWN_NAME as nat)),
                visible,
                actual,
            ),
        ]
    }
}

/// A list that shows a sign holds entries that show it.
proof fn lemma_showing(list: Seq<EntryModel>, sign: Sign, i: int)
    requires
        0 <= i < showing(list, sign).len(),
    ensures
        shows(showing(list, sign)[i], sign),
    decreases list.len(),
{
    if list.len() > 0 {
        let before = showing(list.drop_last(), sign);
        if i < before.len() {
            lemma_showing(list.drop_last(), sign, i);
        }
    }
}

/// Reports entries with two extensions.
fn check_disguised(files: &[ZipEntry]) -> (r: Option<Finding>)
    ensures
        finding::optional(r) == disguised_findings(entry_models(files@)),
{
    let hits = select(files, Sign::Disguised);
    if hits.len() == 0 {
        return None;
    }
    proof {
        assert(entry_models(hits@)[0] == hits@[0]@);
        lemma_showing(entry_models(files@), Sign::Disguised, 0);
    }
    let name = hits[0].file_name();
    match check_double_extension(name) {
        Some((visible, actual)) => {
            let shown = quote(truncate(name, SHOWN_NAME).as_str());
            Some(
                disguised_finding(hits.len(), shown.as_str(), visible.as_str(), actual.as_str()),
            )
        },
        None => None,
    }
}

/// What is to be reported of encrypted entries.
pub open spec fn encrypted_findings(files: Seq<EntryModel>) -> Seq<FindingModel> {
    let count = showing(files, Sign::Encrypted).len();
    if count == 0 {
        Seq::empty()
    } else {
        seq![
            finding::finding(
                Severity::High,
                ENCRYPTED_TITLE@,
                numbers::decimal(count) + " of "@ + numbers::decimal(files.len()) + " entries are encrypted."@,
                ENCRYPTED_WHY@,
                5_000,
            ),
        ]
    }
}

/// Reports encrypted entries.
fn check_encrypted(files: &[ZipEntry]) -> (r: Option<Finding>)
    ensures
        finding::optional(r) == encrypted_findings(entry_models(files@)),
{
    let hits = select(files, Sign::Encrypted);
    if hits.len() == 0 {
        return None;
    }
    let mut detail: String = String::new();
    push_decimal(&mut detail, hits.len() as u64);
    assert(detail@ =~= numbers::decimal(hits@.len()));
    detail.append(" of ");
    push_decimal(&mut detail, files.len() as u64);
    detail.append(" entries are encrypted.");
    Some(
        Finding::new(
            Severity::High,
            ENCRYPTED_TITLE.to_string(),
            detail,
            ENCRYPTED_WHY.to_string(),
            5_000,
        ),
    )
}

/// The declared compressed size of all entries.
pub open spec fn total_compressed(list: Seq<EntryModel>) -> int
    decreases list.len(),
{
    if list.len() == 0 {
        0
    } else {
        total_compressed(list.drop_last()) + list.last().compressed_size
    }
}

/// The declared uncompressed size of all entries.
pub open spec fn total_uncompressed(list: Seq<EntryModel>) -> int
    decreases list.len(),
{
    if list.len() == 0 {
        0
    } else {
        total_uncompressed(list.drop_last()) + list.last().uncompressed_size
    }
}

/// A size that 64 bits hold: the greatest such number for a larger one.
pub open spec fn saturated(n: int) -> u64 {
    if n > u64::MAX {
        u64::MAX
    } else {
        n as u64
    }
}

/// What is to be reported of the declared sizes. Both conditions have to hold:
/// an enormous size, and an enormous expansion.
pub open spec fn bomb_findings(compressed: u64, uncompressed: u64, count: nat) -> Seq<FindingModel> {
    if compressed == 0 || uncompressed < MIN_EXPANDED || uncompressed / compressed < MIN_RATIO {
        Seq::empty()
    } else {
        seq![
            finding::finding(
                Severity::High,
                BOMB_TITLE@,
                numbers::decimal(count) + " entries totalling "@ + numbers::human_size(compressed as nat)
                    + " compressed expand to "@ + numbers::human_size(uncompressed as nat)
                    + " — a ratio of "@ + numbers::decimal((uncompressed / compressed) as nat) + ":1."@,
                BOMB_WHY@,
                6_000,
            ),
        ]
    }
}

/// Decides whether the declared sizes describe a decompression bomb.
pub fn bomb_finding(compressed: u64, uncompressed: u64, entry_count: usize) -> (r: Option<Finding>)
    ensures
        finding::optional(r) == bomb_findings(compressed, uncompressed, entry_count as nat),
{
    if compressed == 0 || uncompressed < MIN_EXPANDED {
        return None;
    }
    let ratio: u64 = uncompressed / compressed;
    if ratio < MIN_RATIO {
        return None;
    }
    let mut detail: String = String::new();
    push_decimal(&mut detail, entry_count as u64);
    assert(detail@ =~= numbers::decimal(entry_count as nat));
    detail.append(" entries totalling ");
    push_human_bytes(&mut detail, compressed);
    detail.append(" compressed expand to ");
    push_human_bytes(&mut detail, uncompressed);
    detail.append(" — a ratio of ");
    push_decimal(&mut detail, ratio);
    detail.append(":1.");
    Some(
        Finding::new(
            Severity::High,
            BOMB_TITLE.to_string(),
            detail,
            BOMB_WHY.to_string(),
            6_000,
        ),
    )
}

/// Adds up the declared sizes.
fn totals(files: &[ZipEntry]) -> (r: (u64, u64))
    ensures
        r.0 == saturated(total_compressed(entry_models(files@))),
        r.1 == saturated(total_uncompressed(entry_models(files@))),
{
    let mut compressed: u64 = 0;
    let mut uncompressed: u64 = 0;
    let mut i: usize = 0;
    while i < files.len()
        invariant
            i <= files@.len(),
            0 <= total_compressed(entry_models(files@).take(i as int)),
            0 <= total_uncompressed(entry_models(files@).take(i as int)),
            compressed == saturated(total_compressed(entry_models(files@).take(i as int))),
            uncompressed == saturated(total_uncompressed(entry_models(files@).take(i as int))),
        decreases files@.len() - i,
    {
        proof {
            let longer = entry_models(files@).take(i + 1);
            assert(longer.drop_last() =~= entry_models(files@).take(i as int));
            assert(longer.last() == files@[i as int]@);
        }
        compressed = compressed.saturating_add(files[i].compressed_size);
        uncompressed = uncompressed.saturating_add(files[i].uncompressed_size);
        i += 1;
    }
    assert(entry_models(files@).take(files@.len() as int) =~= entry_models(files@));
    (compressed, uncompressed)
}

/// The risk of an entry that executes.
pub open spec fn execution_risk(e: EntryModel) -> int {
    EXECUTABLE_ENTRIES@[entry_row(e.name)->0].2 as int
}

/// The last of the entries that carry the greatest risk.
pub open spec fn most_direct(list: Seq<EntryModel>) -> EntryModel
    decreases list.len(),
{
    if list.len() <= 1 {
        list[0]
    } else {
        let before = most_direct(list.drop_last());
        if execution_risk(list.last()) >= execution_risk(before) {
            list.last()
        } else {
            before
        }
    }
}

/// A small archive whose executable sits at the root, ready to be
/// double-clicked.
pub open spec fn delivery_shape(files: Seq<EntryModel>) -> bool {
    files.len() <= 3 && showing(files, Sign::ExecutesFromRoot).len() > 0
}

/// The risk of a program of row `row`, in an archive that is shaped like a
/// delivery or not.
pub open spec fn shaped_risk(row: int, delivery: bool) -> int {
    let own = EXECUTABLE_ENTRIES@[row].2;
    if !delivery {
        own as int
    } else if own + 3_000 < 7_000 {
        own + 3_000
    } else {
        7_000
    }
}

/// The finding about so many entries that execute; the most direct falls into
/// row `row` and is shown as `shown`.
pub open spec fn program_report(
    hits: nat,
    total: nat,
    shown: Seq<char>,
    row: int,
    delivery: bool,
) -> FindingModel {
    finding::finding(
        finding::severity_band(shaped_risk(row, delivery)),
        if delivery {
            DELIVERY_TITLE@
        } else {
            PROGRAMS_TITLE@
        },
        numbers::decimal(hits) + " of "@ + numbers::decimal(total)
            + " entries can execute. The most direct is "@ + shown + ", "@
            + EXECUTABLE_ENTRIES@[row].1@ + "."@,
        if delivery {
            DELIVERY_WHY@
        } else {
            PROGRAMS_WHY@
        },
        shaped_risk(row, delivery),
    )
}

/// The finding about so many entries that execute; the most direct falls into
/// row `row` and is shown as `shown`.
pub fn program_finding(hits: usize, total: usize, shown: &str, row: usize, delivery: bool) -> (r:
    Finding)
    requires
        row < EXECUTABLE_ENTRIES@.len(),
    ensures
        r@ == program_report(hits as nat, total as nat, shown@, row as int, delivery),
{
    let own: i64 = EXECUTABLE_ENTRIES[row].2;
    let risk: i64 = if !delivery {
        own
    } else if own < 4_000 {
        own + 3_000
    } else {
        7_000
    };
    let mut detail: String = String::new();
    push_decimal(&mut detail, hits as u64);
    assert(detail@ =~= numbers::decimal(hits as nat));
    detail.append(" of ");
    push_decimal(&mut detail, total as u64);
    detail.append(" entries can execute. The most direct is ");
    detail.append(shown);
    detail.append(", ");
    detail.append(EXECUTABLE_ENTRIES[row].1);
    detail.append(".");
    let title: &'static str = if delivery {
        DELIVERY_TITLE
    } else {
        PROGRAMS_TITLE
    };
    let why: &'static str = if delivery {
        DELIVERY_WHY
    } else {
        PROGRAMS_WHY
    };
    Finding::new(severity_for(risk), title.to_string(), detail, why.to_string(), risk)
}

/// What is to be reported of executable content.
pub open spec fn program_findings(files: Seq<EntryModel>) -> Seq<FindingModel> {
    let hits = showing(files, Sign::Executes);
    if hits.len() == 0 {
        Seq::empty()
    } else {
        let direct = most_direct(hits);
        seq![
            program_report(
                hits.len(),
                files.len(),
                text::quoted(text::shortened(text::base_name(direct.name), SHOWN_NAME as nat)),
                entry_row(direct.name)->0,
                delivery_shape(files),
            ),
        ]
    }
}

/// The index of the last of the entries that carry the greatest risk.
#[verifier::rlimit(30)]
fn most_direct_of(hits: &[ZipEntry]) -> (r: usize)
    requires
        hits@.len() > 0,
        forall|i: int| 0 <= i < hits@.len() ==> shows((#[trigger] hits@[i])@, Sign::Executes),
    ensures
        r < hits@.len(),
        hits@[r as int]@ == most_direct(entry_models(hits@)),
{
    let mut best: usize = 0;
    let mut i: usize = 1;
    assert(entry_models(hits@).take(1)[0] == hits@[0]@);
    while i < hits.len()
        invariant
            1 <= i <= hits@.len(),
            best < i,
            forall|i: int| 0 <= i < hits@.len() ==> shows((#[trigger] hits@[i])@, Sign::Executes),
            hits@[best as int]@ == most_direct(entry_models(hits@).take(i as int)),
        decreases hits@.len() - i,
    {
        proof {
            let longer = entry_models(hits@).take(i + 1);
            assert(longer.drop_last() =~= entry_models(hits@).take(i as int));
            assert(longer.last() == hits@[i as int]@);
        }
        if let (Some(a), Some(b)) = (row_of(&hits[i]), row_of(&hits[best])) {
            if EXECUTABLE_ENTRIES[a].2 >= EXECUTABLE_ENTRIES[b].2 {
                best = i;
            }
        }
        i += 1;
    }
    assert(entry_models(hits@).take(hits@.len() as int) =~= entry_models(hits@));
    best
}

/// Reports executable content.
fn check_programs(files: &[ZipEntry], hits: &[ZipEntry]) -> (r: Option<Finding>)
    requires
        entry_models(hits@) == showing(entry_models(files@), Sign::Executes),
    ensures
        finding::optional(r) == program_findings(entry_models(files@)),
{
    if hits.len() == 0 {
        assert(entry_models(hits@).len() == 0);
        return None;
    }
    proof {
        assert forall|i: int| 0 <= i < hits@.len() implies shows(
            (#[trigger] hits@[i])@,
            Sign::Executes,
        ) by {
            lemma_showing(entry_models(files@), Sign::Executes, i);
            assert(entry_models(hits@)[i] == hits@[i]@);
        }
    }
    let k: usize = most_direct_of(hits);
    let row: usize = match row_of(&hits[k]) {
        Some(row) => row,
        None => 0,
    };
    let at_root = select(files, Sign::ExecutesFromRoot);
    let delivery = files.len() <= 3 && at_root.len() > 0;
    proof {
        assert(entry_models(at_root@).len() == at_root@.len());
        assert(delivery == delivery_shape(entry_models(files@)));
    }
    let shown = quote(truncate(hits[k].file_name(), SHOWN_NAME).as_str());
    Some(program_finding(hits.len(), files.len(), shown.as_str(), row, delivery))
}

/// What is to be reported of an archive with so many programs, under the
/// extension `ext`, in lower case.
pub open spec fn mask_findings(count: nat, ext: Seq<char>) -> Seq<FindingModel> {
    if count == 0 || !text::one_of(ext, MASK_EXTENSIONS@) {
        Seq::empty()
    } else {
        seq![
            finding::finding(
                Severity::High,
                MASKED_TITLE@,
                "The name ends in ."@ + ext + ", the contents are a ZIP archive, and "@
                    + numbers::decimal(count) + " entries inside can execute."@,
                MASKED_WHY@,
                7_000,
            ),
        ]
    }
}

/// What is to be reported of an archive of programs that is named like a
/// document.
pub open spec fn masked_findings(files: Seq<EntryModel>, filename: Seq<char>) -> Seq<FindingModel> {
    mask_findings(showing(files, Sign::Executes).len(), text::claimed_extension(filename))
}

/// Reports an archive with so many programs, under the extension `ext`, in
/// lower case, where it poses as a document.
pub fn check_mask(count: usize, ext: &str) -> (r: Option<Finding>)
    ensures
        finding::optional(r) == mask_findings(count as nat, ext@),
{
    if count == 0 || !is_one_of(ext, &MASK_EXTENSIONS) {
        return None;
    }
    let mut detail: String = "The name ends in .".to_string();
    detail.append(ext);
    detail.append(", the contents are a ZIP archive, and ");
    push_decimal(&mut detail, count as u64);
    detail.append(" entries inside can execute.");
    Some(
        Finding::new(
            Severity::High,
            MASKED_TITLE.to_string(),
            detail,
            MASKED_WHY.to_string(),
            7_000,
        ),
    )
}

// ---------------------------------------------------------------------------
// The whole analysis
// ---------------------------------------------------------------------------

/// Result of archive analysis.
#[derive(Debug)]
pub struct ArchiveResult {
    /// A readable ZIP central directory was found.
    pub is_archive: bool,
    pub flagged: bool,
    pub flags: Vec<String>,
    pub findings: Vec<Finding>,
    pub risk: i64,
    pub entry_count: usize,
}

/// Everything that the entries of an archive and its name give to report.
pub open spec fn entry_findings(entries: Seq<EntryModel>, filename: Seq<char>) -> Seq<FindingModel> {
    let files = files_among(entries);
    escape_findings(files) + rigged_findings(files) + disguised_findings(files)
        + encrypted_findings(files) + bomb_findings(
        saturated(total_compressed(files)),
        saturated(total_uncompressed(files)),
        files.len(),
    ) + program_findings(files) + masked_findings(files, filename)
}

/// Everything that a file gives to report as an archive: nothing where it is
/// no readable archive.
pub open spec fn archive_findings(data: Seq<u8>, filename: Seq<char>) -> Seq<FindingModel> {
    match archive_entries(data) {
        Some(entries) => entry_findings(entries, filename),
        None => Seq::empty(),
    }
}

/// Reports what the entries of an archive give away.
pub fn examine(entries: &[ZipEntry], filename: &str) -> (r: Vec<Finding>)
    ensures
        finding::models(r@) == entry_findings(entry_models(entries@), filename@),
{
    let files = files_of(entries);
    let ghost list = entry_models(files@);
    let mut out: Vec<Finding> = Vec::new();
    assert(finding::models(out@) =~= Seq::<FindingModel>::empty());
    append_one(&mut out, check_escapes(files.as_slice()));
    assert(finding::models(out@) =~= escape_findings(list));
    append_one(&mut out, check_rigged(files.as_slice()));
    append_one(&mut out, check_disguised(files.as_slice()));
    append_one(&mut out, check_encrypted(files.as_slice()));
    let (compressed, uncompressed) = totals(files.as_slice());
    append_one(&mut out, bomb_finding(compressed, uncompressed, files.len()));
    let hits = select(files.as_slice(), Sign::Executes);
    append_one(&mut out, check_programs(files.as_slice(), hits.as_slice()));
    assert(entry_models(hits@).len() == hits@.len());
    let ext = claimed_extension_of(filename);
    append_one(&mut out, check_mask(hits.len(), ext.as_str()));
    out
}

/// Analyses a complete file as an archive.
pub fn analyse(data: &[u8], filename: &str) -> (r: ArchiveResult)
    ensures
        r.is_archive == archive_entries(data@) is Some,
        r.entry_count == (match archive_entries(data@) {
            Some(entries) => entries.len(),
            None => 0,
        }),
        finding::models(r.findings@) == archive_findings(data@, filename@),
        r.flagged == (archive_findings(data@, filename@).len() > 0),
        text::texts(r.flags@) == finding::one_line_texts(archive_findings(data@, filename@)),
        r.risk == finding::worst_risk(archive_findings(data@, filename@)),
{
    match list_entries(data) {
        Some(entries) => {
            let findings = examine(entries.as_slice(), filename);
            let flags = one_lines(findings.as_slice());
            let risk: i64 = worst(findings.as_slice());
            ArchiveResult {
                is_archive: true,
                flagged: findings.len() > 0,
                flags,
                findings,
                risk,
                entry_count: entries.len(),
            }
        },
        None => {
            let r = ArchiveResult {
                is_archive: false,
                flagged: false,
                flags: Vec::new(),
                findings: Vec::new(),
                risk: 0,
                entry_count: 0,
            };
            assert(finding::models(r.findings@) =~= Seq::<FindingModel>::empty());
            assert(text::texts(r.flags@) =~= finding::one_line_texts(Seq::<FindingModel>::empty()));
            r
        },
    }
}

// ---------------------------------------------------------------------------
// Laws
// ---------------------------------------------------------------------------

proof fn lemma_entries_are_counted(data: Seq<u8>, off: int, n: nat)
    ensures
        entries_from(data, off, n) matches Some(list) ==> list.len() <= n,
    decreases n,
{
    if n > 0 && off + 4 <= data.len() && sequences::occurs_at(data, CENTRAL_ENTRY@, off)
        && entry_fits(data, off) {
        lemma_entries_are_counted(data, next_entry(data, off), (n - 1) as nat);
    }
}

/// Whatever an archive declares, no more than `MAX_ENTRIES` entries are read.
pub proof fn law_listing_is_bounded(data: Seq<u8>)
    ensures
        archive_entries(data) matches Some(list) ==> list.len() <= MAX_ENTRIES,
{
    if let Some((offset, declared)) = directory(data) {
        lemma_entries_are_counted(
            data,
            offset,
            if declared < MAX_ENTRIES {
                declared as nat
            } else {
                MAX_ENTRIES as nat
            },
        );
    }
}

/// An empty listing means an archive that declares no entries, and nothing
/// else.
pub proof fn law_only_an_empty_archive_lists_nothing(data: Seq<u8>)
    ensures
        archive_entries(data) == Some(Seq::<EntryModel>::empty()) <==> (directory(data) matches Some(
            (_, declared),
        ) && declared == 0),
{
    if let Some((offset, declared)) = directory(data) {
        let n = if declared < MAX_ENTRIES {
            declared as nat
        } else {
            MAX_ENTRIES as nat
        };
        if declared > 0 && sequences::occurs_at(data, CENTRAL_ENTRY@, offset) {
            if let Some(rest) = entries_from(data, next_entry(data, offset), (n - 1) as nat) {
                assert((seq![entry_at(data, offset)] + rest).len() > 0);
            }
        }
    }
}

/// No entry that shows a sign is missed.
pub proof fn law_no_sign_is_missed(list: Seq<EntryModel>, sign: Sign, i: int)
    requires
        0 <= i < list.len(),
        shows(list[i], sign),
    ensures
        showing(list, sign).contains(list[i]),
        showing(list, sign).len() > 0,
    decreases list.len(),
{
    let found = showing(list, sign);
    if i == list.len() - 1 {
        assert(found.last() == list[i]);
    } else {
        law_no_sign_is_missed(list.drop_last(), sign, i);
        let before = showing(list.drop_last(), sign);
        let k = choose|k: int| 0 <= k < before.len() && before[k] == list[i];
        assert(found[k] == list[i]);
    }
}

proof fn lemma_nothing_shows(list: Seq<EntryModel>, sign: Sign)
    requires
        forall|i: int| 0 <= i < list.len() ==> !#[trigger] shows(list[i], sign),
    ensures
        showing(list, sign).len() == 0,
    decreases list.len(),
{
    if list.len() > 0 {
        let shorter = list.drop_last();
        assert forall|i: int| 0 <= i < shorter.len() implies !#[trigger] shows(
            shorter[i],
            sign,
        ) by {
            assert(!shows(list[i], sign));
        }
        assert(!shows(list[list.len() - 1], sign));
        lemma_nothing_shows(shorter, sign);
    }
}

/// An archive in which no file gives anything away, and which does not claim
/// to expand beyond measure, is not reported, whatever its name.
pub proof fn law_an_ordinary_archive_is_not_reported(entries: Seq<EntryModel>, filename: Seq<char>)
    requires
        forall|i: int, sign: Sign|
            0 <= i < files_among(entries).len() ==> !#[trigger] shows(
                files_among(entries)[i],
                sign,
            ),
        saturated(total_uncompressed(files_among(entries))) < MIN_EXPANDED,
    ensures
        entry_findings(entries, filename).len() == 0,
{
    let files = files_among(entries);
    lemma_nothing_shows(files, Sign::Escapes);
    lemma_nothing_shows(files, Sign::Rigged);
    lemma_nothing_shows(files, Sign::Disguised);
    lemma_nothing_shows(files, Sign::Encrypted);
    lemma_nothing_shows(files, Sign::Executes);
}

/// A file that escapes, wherever it stands in the archive, is reported as
/// critical.
pub proof fn law_an_escaping_file_is_reported(
    entries: Seq<EntryModel>,
    filename: Seq<char>,
    i: int,
)
    requires
        0 <= i < files_among(entries).len(),
        escapes(files_among(entries)[i].name),
    ensures
        entry_findings(entries, filename).len() > 0,
        entry_findings(entries, filename)[0].severity == Severity::Critical,
        entry_findings(entries, filename)[0].title == ESCAPE_TITLE@,
{
    law_no_sign_is_missed(files_among(entries), Sign::Escapes, i);
}

/// A decompression bomb is enormous on both counts: in what it expands to, and
/// in how much it expands.
pub proof fn law_a_bomb_is_enormous_on_both_counts(compressed: u64, uncompressed: u64, count: nat)
    ensures
        bomb_findings(compressed, uncompressed, count).len() > 0 <==> compressed > 0 && uncompressed
            >= MIN_EXPANDED && uncompressed / compressed >= MIN_RATIO,
{
}

/// A lone program at the root of a small archive weighs more than the same
/// program in a bundle, and no more than what holds back a file on its own.
pub proof fn law_a_delivery_weighs_more(row: int)
    requires
        0 <= row < EXECUTABLE_ENTRIES@.len(),
    ensures
        0 < shaped_risk(row, false) < shaped_risk(row, true) <= 7_000,
{
}

/// The risks of the findings are risks.
pub proof fn law_archive_risks_are_bounded(entries: Seq<EntryModel>, filename: Seq<char>)
    ensures
        finding::bounded(entry_findings(entries, filename)),
{
}

/// Content under a folder's name is a file, and is examined like any other.
pub proof fn law_content_is_a_file(data: Seq<u8>, off: int)
    requires
        entry_at(data, off).compressed_size > 0 || entry_at(data, off).uncompressed_size > 0,
    ensures
        !entry_at(data, off).is_directory,
        files_among(seq![entry_at(data, off)]) == seq![entry_at(data, off)],
{
    let list = seq![entry_at(data, off)];
    assert(list.drop_last() =~= Seq::<EntryModel>::empty());
    assert(Seq::<EntryModel>::empty().push(list.last()) =~= list);
    reveal_with_fuel(files_among, 2);
}

/// Only files are examined, and every one of them.
pub proof fn law_every_file_is_examined(list: Seq<EntryModel>, e: EntryModel)
    ensures
        files_among(list).contains(e) <==> list.contains(e) && !e.is_directory,
        files_among(list).len() <= list.len(),
    decreases list.len(),
{
    if list.len() > 0 {
        let shorter = list.drop_last();
        law_every_file_is_examined(shorter, e);
        let found = files_among(list);
        let before = files_among(shorter);
        if list.contains(e) {
            let i = choose|i: int| 0 <= i < list.len() && list[i] == e;
            if i < shorter.len() {
                assert(shorter[i] == e);
            }
        }
        if shorter.contains(e) {
            let i = choose|i: int| 0 <= i < shorter.len() && shorter[i] == e;
            assert(list[i] == e);
        }
        assert(list[list.len() - 1] == list.last());
        if !list.last().is_directory {
            assert(found == before.push(list.last()));
            assert(found.last() == list.last());
            if before.contains(e) {
                let i = choose|i: int| 0 <= i < before.len() && before[i] == e;
                assert(found[i] == e);
            }
            if found.contains(e) {
                let i = choose|i: int| 0 <= i < found.len() && found[i] == e;
                if i < before.len() {
                    assert(before[i] == e);
                }
            }
        }
    }
}

/// An entry is a folder where its name ends in a separator and it holds nothing,
/// and a file otherwise.
pub proof fn law_what_a_folder_is(name: Seq<char>, compressed: u64, uncompressed: u64)
    ensures
        folder(name, compressed, uncompressed) <==> compressed == 0 && uncompressed == 0
            && name.len() > 0 && (name.last() == '/' || name.last() == '\\'),
{
}

/// Where a file shows a sign, something shows it.
proof fn lemma_file_shows(entries: Seq<EntryModel>, e: EntryModel, sign: Sign)
    requires
        entries.contains(e),
        !e.is_directory,
        shows(e, sign),
    ensures
        showing(files_among(entries), sign).contains(e),
        showing(files_among(entries), sign).len() > 0,
{
    let files = files_among(entries);
    law_every_file_is_examined(entries, e);
    let i = choose|i: int| 0 <= i < files.len() && files[i] == e;
    law_no_sign_is_missed(files, sign, i);
}

/// The parts of what an archive gives to report.
proof fn lemma_parts(
    entries: Seq<EntryModel>,
    filename: Seq<char>,
    part: Seq<FindingModel>,
    severity: Severity,
    risk: int,
)
    requires
        finding::reports(part, severity, risk),
        ({
            let files = files_among(entries);
            ||| part == escape_findings(files)
            ||| part == rigged_findings(files)
            ||| part == disguised_findings(files)
            ||| part == encrypted_findings(files)
            ||| part == bomb_findings(
                saturated(total_compressed(files)),
                saturated(total_uncompressed(files)),
                files.len(),
            )
            ||| part == program_findings(files)
            ||| part == masked_findings(files, filename)
        }),
    ensures
        finding::reports(entry_findings(entries, filename), severity, risk),
{
    let files = files_among(entries);
    let a = escape_findings(files);
    let b = rigged_findings(files);
    let c = disguised_findings(files);
    let d = encrypted_findings(files);
    let e = bomb_findings(
        saturated(total_compressed(files)),
        saturated(total_uncompressed(files)),
        files.len(),
    );
    let f = program_findings(files);
    let g = masked_findings(files, filename);
    lemma_seven(a, b, c, d, e, f, g, part, severity, risk);
}

/// What one of seven lists reports, all of them together do.
proof fn lemma_seven(
    a: Seq<FindingModel>,
    b: Seq<FindingModel>,
    c: Seq<FindingModel>,
    d: Seq<FindingModel>,
    e: Seq<FindingModel>,
    f: Seq<FindingModel>,
    g: Seq<FindingModel>,
    part: Seq<FindingModel>,
    severity: Severity,
    risk: int,
)
    requires
        finding::reports(part, severity, risk),
        part == a || part == b || part == c || part == d || part == e || part == f || part == g,
    ensures
        finding::reports(a + b + c + d + e + f + g, severity, risk),
{
    let all = a + b + c + d + e + f + g;
    let none = Seq::<FindingModel>::empty();
    if part == a {
        finding::lemma_reported_within(none, a, b + c + d + e + f + g, severity, risk);
        assert(none + a + (b + c + d + e + f + g) =~= all);
    } else if part == b {
        finding::lemma_reported_within(a, b, c + d + e + f + g, severity, risk);
        assert(a + b + (c + d + e + f + g) =~= all);
    } else if part == c {
        finding::lemma_reported_within(a + b, c, d + e + f + g, severity, risk);
        assert(a + b + c + (d + e + f + g) =~= all);
    } else if part == d {
        finding::lemma_reported_within(a + b + c, d, e + f + g, severity, risk);
        assert(a + b + c + d + (e + f + g) =~= all);
    } else if part == e {
        finding::lemma_reported_within(a + b + c + d, e, f + g, severity, risk);
        assert(a + b + c + d + e + (f + g) =~= all);
    } else if part == f {
        finding::lemma_reported_within(a + b + c + d + e, f, g, severity, risk);
    } else {
        finding::lemma_reported_within(a + b + c + d + e + f, g, none, severity, risk);
        assert(a + b + c + d + e + f + g + none =~= all);
    }
}

/// A file whose path leads out of the folder is reported as critical, wherever
/// it stands in the archive: one with `..` among its components, one that
/// starts at the root, and one that names a drive.
pub proof fn law_a_path_that_leads_out_is_reported(
    entries: Seq<EntryModel>,
    filename: Seq<char>,
    e: EntryModel,
    before: Seq<char>,
    after: Seq<char>,
)
    requires
        entries.contains(e),
        !e.is_directory,
        ({
            ||| e.name == before + seq!['.', '.'] + after && (before.len() == 0 || before.last() == '/'
                || before.last() == '\\') && (after.len() == 0 || after[0] == '/' || after[0]
                == '\\')
            ||| e.name.len() > 0 && (e.name[0] == '/' || e.name[0] == '\\')
            ||| e.name.len() > 1 && 'A' <= e.name[0] <= 'z' && e.name[1] == ':'
        }),
    ensures
        finding::reports(entry_findings(entries, filename), Severity::Critical, 8_000),
{
    let n = before.len() as int;
    if e.name == before + seq!['.', '.'] + after && (before.len() == 0 || before.last() == '/'
        || before.last() == '\\') && (after.len() == 0 || after[0] == '/' || after[0] == '\\') {
        assert(n > 0 ==> e.name[n - 1] == before.last());
        assert(after.len() > 0 ==> e.name[n + 2] == after[0]);
        assert(dot_dot_at(e.name, n));
    }
    lemma_file_shows(entries, e, Sign::Escapes);
    let files = files_among(entries);
    finding::lemma_single_is_reported(escape_findings(files), Severity::Critical, 8_000);
    lemma_parts(entries, filename, escape_findings(files), Severity::Critical, 8_000);
}

/// Nothing else leads out: a path that starts with an ordinary component, names
/// no drive and has no component `..` stays in the folder.
pub proof fn law_an_ordinary_path_stays_inside(name: Seq<char>)
    requires
        forall|i: int|
            0 <= i && i + 1 < name.len() ==> !(#[trigger] name[i] == '.' && name[i + 1] == '.'),
        name.len() > 0 ==> name[0] != '/' && name[0] != '\\',
        name.len() > 1 ==> name[1] != ':',
    ensures
        !escapes(name),
{
    if climbs(name) {
        let i = choose|i: int| dot_dot_at(name, i);
        assert(name[i] == '.');
    }
}

/// A file whose name holds a mark that turns the direction of text is reported
/// as critical.
pub proof fn law_a_rigged_name_is_reported(
    entries: Seq<EntryModel>,
    filename: Seq<char>,
    e: EntryModel,
    mark: char,
)
    requires
        entries.contains(e),
        !e.is_directory,
        e.name.contains(mark),
        mark == '\u{202A}' || mark == '\u{202B}' || mark == '\u{202C}' || mark == '\u{202D}' || mark
            == '\u{202E}' || mark == '\u{2066}' || mark == '\u{2067}' || mark == '\u{2068}' || mark
            == '\u{2069}' || mark == '\u{200E}' || mark == '\u{200F}',
    ensures
        finding::reports(entry_findings(entries, filename), Severity::Critical, 8_500),
        rigged(e.name),
{
    let i = choose|i: int| 0 <= i < e.name.len() && e.name[i] == mark;
    assert(bidi_override(e.name[i]));
    lemma_file_shows(entries, e, Sign::Rigged);
    let files = files_among(entries);
    finding::lemma_single_is_reported(rigged_findings(files), Severity::Critical, 8_500);
    lemma_parts(entries, filename, rigged_findings(files), Severity::Critical, 8_500);
}

/// A name of plain text is not rigged.
pub proof fn law_plain_names_are_not_rigged(name: Seq<char>)
    requires
        forall|i: int| 0 <= i < name.len() ==> #[trigger] name[i] < '\u{200E}',
    ensures
        !rigged(name),
{
}

/// A program under the name of a document is reported as critical, in whatever
/// folder of the archive it lies.
pub proof fn law_a_disguised_file_is_reported(
    entries: Seq<EntryModel>,
    filename: Seq<char>,
    e: EntryModel,
)
    requires
        entries.contains(e),
        !e.is_directory,
        structure::disguise(text::base_name(e.name)) is Some,
    ensures
        finding::reports(entry_findings(entries, filename), Severity::Critical, 7_500),
{
    lemma_file_shows(entries, e, Sign::Disguised);
    let files = files_among(entries);
    finding::lemma_single_is_reported(disguised_findings(files), Severity::Critical, 7_500);
    lemma_parts(entries, filename, disguised_findings(files), Severity::Critical, 7_500);
}

/// What cannot be looked into is reported: one encrypted file is enough.
pub proof fn law_an_encrypted_file_is_reported(
    entries: Seq<EntryModel>,
    filename: Seq<char>,
    e: EntryModel,
)
    requires
        entries.contains(e),
        !e.is_directory,
        e.encrypted,
    ensures
        finding::reports(entry_findings(entries, filename), Severity::High, 5_000),
{
    lemma_file_shows(entries, e, Sign::Encrypted);
    let files = files_among(entries);
    finding::lemma_single_is_reported(encrypted_findings(files), Severity::High, 5_000);
    lemma_parts(entries, filename, encrypted_findings(files), Severity::High, 5_000);
}

/// The sizes of files add up, one by one.
pub proof fn law_sizes_add_up(list: Seq<EntryModel>, e: EntryModel)
    ensures
        total_compressed(Seq::empty()) == 0,
        total_uncompressed(Seq::empty()) == 0,
        total_compressed(list.push(e)) == total_compressed(list) + e.compressed_size,
        total_uncompressed(list.push(e)) == total_uncompressed(list) + e.uncompressed_size,
{
    assert(list.push(e).drop_last() =~= list);
}

/// An archive whose files expand to a gigabyte or more, a hundred times what
/// they take, is reported as a bomb.
pub proof fn law_a_bomb_is_reported(entries: Seq<EntryModel>, filename: Seq<char>)
    requires
        total_uncompressed(files_among(entries)) <= u64::MAX,
        total_compressed(files_among(entries)) > 0,
        total_uncompressed(files_among(entries)) >= 1_073_741_824,
        total_uncompressed(files_among(entries)) >= 100 * total_compressed(files_among(entries)),
    ensures
        finding::reports(entry_findings(entries, filename), Severity::High, 6_000),
{
    let files = files_among(entries);
    let small = saturated(total_compressed(files));
    let large = saturated(total_uncompressed(files));
    assert(large / small >= 100) by (nonlinear_arith)
        requires
            small > 0,
            large >= 100 * small,
    ;
    finding::lemma_single_is_reported(
        bomb_findings(small, large, files.len()),
        Severity::High,
        6_000,
    );
    lemma_parts(
        entries,
        filename,
        bomb_findings(small, large, files.len()),
        Severity::High,
        6_000,
    );
}

/// Neither a large archive nor a dense one is a bomb for that alone.
pub proof fn law_large_or_dense_alone_is_no_bomb(compressed: u64, uncompressed: u64, count: nat)
    requires
        uncompressed < 1_073_741_824 || uncompressed < 100 * compressed,
    ensures
        bomb_findings(compressed, uncompressed, count).len() == 0,
{
    if compressed > 0 && uncompressed < 100 * compressed {
        assert(uncompressed / compressed < 100) by (nonlinear_arith)
            requires
                compressed > 0,
                uncompressed < 100 * compressed,
        ;
    }
}

/// The most direct of some entries is one of them, and none is more direct.
proof fn lemma_most_direct(list: Seq<EntryModel>)
    requires
        list.len() > 0,
    ensures
        list.contains(most_direct(list)),
        forall|i: int|
            0 <= i < list.len() ==> execution_risk(#[trigger] list[i]) <= execution_risk(
                most_direct(list),
            ),
    decreases list.len(),
{
    if list.len() > 1 {
        let shorter = list.drop_last();
        lemma_most_direct(shorter);
        let best = most_direct(shorter);
        let k = choose|k: int| 0 <= k < shorter.len() && shorter[k] == best;
        assert(list[k] == best);
        assert(list[list.len() - 1] == list.last());
        assert forall|i: int| 0 <= i < list.len() implies execution_risk(#[trigger] list[i])
            <= execution_risk(most_direct(list)) by {
            if i < shorter.len() {
                assert(shorter[i] == list[i]);
            }
        }
    } else {
        assert(list[0] == most_direct(list));
    }
}

/// What shows a sign is of the list, and shows it.
proof fn lemma_shown_shows(list: Seq<EntryModel>, sign: Sign, k: int)
    requires
        0 <= k < showing(list, sign).len(),
    ensures
        list.contains(showing(list, sign)[k]),
        shows(showing(list, sign)[k], sign),
    decreases list.len(),
{
    if list.len() > 0 {
        let shorter = list.drop_last();
        let found = showing(list, sign);
        if shows(list.last(), sign) && k == found.len() - 1 {
            assert(list[list.len() - 1] == found[k]);
        } else {
            lemma_shown_shows(shorter, sign, k);
            let i = choose|i: int| 0 <= i < shorter.len() && shorter[i] == showing(shorter, sign)[k];
            assert(list[i] == found[k]);
        }
    }
}

/// The row of an extension that runs.
proof fn lemma_executable_row(ext: Seq<char>, k: int)
    requires
        0 <= k < EXECUTABLE_ENTRIES@.len(),
        EXECUTABLE_ENTRIES@[k].0@ == ext,
    ensures
        executable_row(ext) matches Some(row) && 0 <= row <= k && EXECUTABLE_ENTRIES@[row].0@ == ext,
    decreases k,
{
    if forall|j: int| 0 <= j < k ==> (#[trigger] EXECUTABLE_ENTRIES@[j]).0@ != ext {
        assert(executable_row_at(ext, k));
    } else {
        let j = choose|j: int| 0 <= j < k && (#[trigger] EXECUTABLE_ENTRIES@[j]).0@ == ext;
        lemma_executable_row(ext, j);
    }
}

/// What runs inside an archive, and how much it weighs there: programs and
/// installers little, since archives are made for them, shortcuts and encoded
/// scripts most. Nothing else runs.
pub proof fn law_what_runs_inside_an_archive(ext: Seq<char>)
    ensures
        ext == "exe"@ ==> (executable_row(ext) matches Some(k) && EXECUTABLE_ENTRIES@[k].2 == 1_500),
        ext == "msi"@ ==> (executable_row(ext) matches Some(k) && EXECUTABLE_ENTRIES@[k].2 == 1_500),
        ext == "dll"@ ==> (executable_row(ext) matches Some(k) && EXECUTABLE_ENTRIES@[k].2 == 1_500),
        ext == "com"@ ==> (executable_row(ext) matches Some(k) && EXECUTABLE_ENTRIES@[k].2 == 3_000),
        ext == "scr"@ ==> (executable_row(ext) matches Some(k) && EXECUTABLE_ENTRIES@[k].2 == 5_000),
        ext == "cpl"@ ==> (executable_row(ext) matches Some(k) && EXECUTABLE_ENTRIES@[k].2 == 5_000),
        ext == "pif"@ ==> (executable_row(ext) matches Some(k) && EXECUTABLE_ENTRIES@[k].2 == 5_500),
        ext == "lnk"@ ==> (executable_row(ext) matches Some(k) && EXECUTABLE_ENTRIES@[k].2 == 6_000),
        ext == "js"@ ==> (executable_row(ext) matches Some(k) && EXECUTABLE_ENTRIES@[k].2 == 4_000),
        ext == "jse"@ ==> (executable_row(ext) matches Some(k) && EXECUTABLE_ENTRIES@[k].2 == 6_000),
        ext == "vbs"@ ==> (executable_row(ext) matches Some(k) && EXECUTABLE_ENTRIES@[k].2 == 5_000),
        ext == "vbe"@ ==> (executable_row(ext) matches Some(k) && EXECUTABLE_ENTRIES@[k].2 == 6_000),
        ext == "wsf"@ ==> (executable_row(ext) matches Some(k) && EXECUTABLE_ENTRIES@[k].2 == 5_500),
        ext == "wsh"@ ==> (executable_row(ext) matches Some(k) && EXECUTABLE_ENTRIES@[k].2 == 5_000),
        ext == "hta"@ ==> (executable_row(ext) matches Some(k) && EXECUTABLE_ENTRIES@[k].2 == 6_000),
        ext == "ps1"@ ==> (executable_row(ext) matches Some(k) && EXECUTABLE_ENTRIES@[k].2 == 4_500),
        ext == "bat"@ ==> (executable_row(ext) matches Some(k) && EXECUTABLE_ENTRIES@[k].2 == 4_000),
        ext == "cmd"@ ==> (executable_row(ext) matches Some(k) && EXECUTABLE_ENTRIES@[k].2 == 4_000),
        ext == "reg"@ ==> (executable_row(ext) matches Some(k) && EXECUTABLE_ENTRIES@[k].2 == 3_500),
        ext == "iso"@ ==> (executable_row(ext) matches Some(k) && EXECUTABLE_ENTRIES@[k].2 == 4_000),
        ext == "img"@ ==> (executable_row(ext) matches Some(k) && EXECUTABLE_ENTRIES@[k].2 == 4_000),
        ext == "vhd"@ ==> (executable_row(ext) matches Some(k) && EXECUTABLE_ENTRIES@[k].2 == 4_000),
        ext == "vhdx"@ ==> (executable_row(ext) matches Some(k) && EXECUTABLE_ENTRIES@[k].2 == 4_000),
        executable_row(ext) is Some <==> ({
            ||| ext == "exe"@
            ||| ext == "msi"@
            ||| ext == "dll"@
            ||| ext == "com"@
            ||| ext == "scr"@
            ||| ext == "cpl"@
            ||| ext == "pif"@
            ||| ext == "lnk"@
            ||| ext == "js"@
            ||| ext == "jse"@
            ||| ext == "vbs"@
            ||| ext == "vbe"@
            ||| ext == "wsf"@
            ||| ext == "wsh"@
            ||| ext == "hta"@
            ||| ext == "ps1"@
            ||| ext == "bat"@
            ||| ext == "cmd"@
            ||| ext == "reg"@
            ||| ext == "iso"@
            ||| ext == "img"@
            ||| ext == "vhd"@
            ||| ext == "vhdx"@
        }),
{
    let table = EXECUTABLE_ENTRIES@;
    assert(table.len() == 23);
    lemma_row_keys();
    if ext == "exe"@ {
        lemma_executable_row(ext, 0);
    }
    if ext == "msi"@ {
        lemma_executable_row(ext, 1);
    }
    if ext == "dll"@ {
        lemma_executable_row(ext, 2);
    }
    if ext == "com"@ {
        lemma_executable_row(ext, 3);
    }
    if ext == "scr"@ {
        lemma_executable_row(ext, 4);
    }
    if ext == "cpl"@ {
        lemma_executable_row(ext, 5);
    }
    if ext == "pif"@ {
        lemma_executable_row(ext, 6);
    }
    if ext == "lnk"@ {
        lemma_executable_row(ext, 7);
    }
    if ext == "js"@ {
        lemma_executable_row(ext, 8);
    }
    if ext == "jse"@ {
        lemma_executable_row(ext, 9);
    }
    if ext == "vbs"@ {
        lemma_executable_row(ext, 10);
    }
    if ext == "vbe"@ {
        lemma_executable_row(ext, 11);
    }
    if ext == "wsf"@ {
        lemma_executable_row(ext, 12);
    }
    if ext == "wsh"@ {
        lemma_executable_row(ext, 13);
    }
    if ext == "hta"@ {
        lemma_executable_row(ext, 14);
    }
    if ext == "ps1"@ {
        lemma_executable_row(ext, 15);
    }
    if ext == "bat"@ {
        lemma_executable_row(ext, 16);
    }
    if ext == "cmd"@ {
        lemma_executable_row(ext, 17);
    }
    if ext == "reg"@ {
        lemma_executable_row(ext, 18);
    }
    if ext == "iso"@ {
        lemma_executable_row(ext, 19);
    }
    if ext == "img"@ {
        lemma_executable_row(ext, 20);
    }
    if ext == "vhd"@ {
        lemma_executable_row(ext, 21);
    }
    if ext == "vhdx"@ {
        lemma_executable_row(ext, 22);
    }
    if let Some(k) = executable_row(ext) {
        assert(executable_row_at(ext, k));
    }
}

/// The row of each extension, by a key that tells them apart.
proof fn lemma_row_keys()
    ensures
        EXECUTABLE_ENTRIES@[0].0@ == "exe"@ && text::short_key("exe"@) == 0x3657865,
        EXECUTABLE_ENTRIES@[1].0@ == "msi"@ && text::short_key("msi"@) == 0x36D7369,
        EXECUTABLE_ENTRIES@[2].0@ == "dll"@ && text::short_key("dll"@) == 0x3646C6C,
        EXECUTABLE_ENTRIES@[3].0@ == "com"@ && text::short_key("com"@) == 0x3636F6D,
        EXECUTABLE_ENTRIES@[4].0@ == "scr"@ && text::short_key("scr"@) == 0x3736372,
        EXECUTABLE_ENTRIES@[5].0@ == "cpl"@ && text::short_key("cpl"@) == 0x363706C,
        EXECUTABLE_ENTRIES@[6].0@ == "pif"@ && text::short_key("pif"@) == 0x3706966,
        EXECUTABLE_ENTRIES@[7].0@ == "lnk"@ && text::short_key("lnk"@) == 0x36C6E6B,
        EXECUTABLE_ENTRIES@[8].0@ == "js"@ && text::short_key("js"@) == 0x26A7300,
        EXECUTABLE_ENTRIES@[9].0@ == "jse"@ && text::short_key("jse"@) == 0x36A7365,
        EXECUTABLE_ENTRIES@[10].0@ == "vbs"@ && text::short_key("vbs"@) == 0x3766273,
        EXECUTABLE_ENTRIES@[11].0@ == "vbe"@ && text::short_key("vbe"@) == 0x3766265,
        EXECUTABLE_ENTRIES@[12].0@ == "wsf"@ && text::short_key("wsf"@) == 0x3777366,
        EXECUTABLE_ENTRIES@[13].0@ == "wsh"@ && text::short_key("wsh"@) == 0x3777368,
        EXECUTABLE_ENTRIES@[14].0@ == "hta"@ && text::short_key("hta"@) == 0x3687461,
        EXECUTABLE_ENTRIES@[15].0@ == "ps1"@ && text::short_key("ps1"@) == 0x3707331,
        EXECUTABLE_ENTRIES@[16].0@ == "bat"@ && text::short_key("bat"@) == 0x3626174,
        EXECUTABLE_ENTRIES@[17].0@ == "cmd"@ && text::short_key("cmd"@) == 0x3636D64,
        EXECUTABLE_ENTRIES@[18].0@ == "reg"@ && text::short_key("reg"@) == 0x3726567,
        EXECUTABLE_ENTRIES@[19].0@ == "iso"@ && text::short_key("iso"@) == 0x369736F,
        EXECUTABLE_ENTRIES@[20].0@ == "img"@ && text::short_key("img"@) == 0x3696D67,
        EXECUTABLE_ENTRIES@[21].0@ == "vhd"@ && text::short_key("vhd"@) == 0x3766864,
        EXECUTABLE_ENTRIES@[22].0@ == "vhdx"@ && text::short_key("vhdx"@) == 0x4766864,
{
    reveal_strlit("exe");
    reveal_strlit("msi");
    reveal_strlit("dll");
    reveal_strlit("com");
    reveal_strlit("scr");
    reveal_strlit("cpl");
    reveal_strlit("pif");
    reveal_strlit("lnk");
    reveal_strlit("js");
    reveal_strlit("jse");
    reveal_strlit("vbs");
    reveal_strlit("vbe");
    reveal_strlit("wsf");
    reveal_strlit("wsh");
    reveal_strlit("hta");
    reveal_strlit("ps1");
    reveal_strlit("bat");
    reveal_strlit("cmd");
    reveal_strlit("reg");
    reveal_strlit("iso");
    reveal_strlit("img");
    reveal_strlit("vhd");
    reveal_strlit("vhdx");
}

/// The extension of an entry is what follows the last dot of its file name, in
/// lower case, whatever folder it lies in.
pub proof fn law_the_extension_of_an_entry(
    directory: Seq<char>,
    stem: Seq<char>,
    ext: Seq<char>,
)
    requires
        directory.len() == 0 || directory.last() == '/' || directory.last() == '\\',
        forall|i: int| 0 <= i < stem.len() ==> #[trigger] stem[i] != '/' && stem[i] != '\\',
        forall|i: int|
            0 <= i < ext.len() ==> #[trigger] ext[i] != '/' && ext[i] != '\\' && ext[i] != '.',
    ensures
        entry_extension(directory + stem + seq!['.'] + ext) == Some(text::lowercase(ext)),
        entry_row(directory + stem + seq!['.'] + ext) == executable_row(text::lowercase(ext)),
        at_root(directory + stem + seq!['.'] + ext) <==> directory.len() == 0,
{
    let name = stem + seq!['.'] + ext;
    let path = directory + stem + seq!['.'] + ext;
    let start = directory.len() as int;
    assert(path =~= directory + name);
    assert forall|j: int| start <= j < path.len() implies !text::separator(path[j]) by {
        assert(path[j] == name[j - start]);
        if j - start < stem.len() {
            assert(name[j - start] == stem[j - start]);
        } else if j - start > stem.len() {
            assert(name[j - start] == ext[j - start - stem.len() - 1]);
        }
    }
    assert(start > 0 ==> path[start - 1] == directory.last());
    text::lemma_base_name(path, start);
    assert(path.subrange(start, path.len() as int) =~= name);
    let dot = stem.len() as int;
    assert forall|j: int| dot < j < name.len() implies name[j] != '.' by {
        assert(name[j] == ext[j - dot - 1]);
    }
    text::lemma_last_index(name, '.', dot);
    assert(name.subrange(dot + 1, name.len() as int) =~= ext);
    if start > 0 {
        assert(text::separator(path[start - 1]));
    }
}

/// Programs inside an archive are reported, at the weight of the most direct one
/// at least. In an archive of three files or fewer, one at the root makes it a
/// delivery, which weighs more. More files than that are a bundle, and no more
/// than its most direct program weighs.
pub proof fn law_programs_inside_are_reported(
    entries: Seq<EntryModel>,
    filename: Seq<char>,
    e: EntryModel,
    row: int,
)
    requires
        entries.contains(e),
        !e.is_directory,
        entry_row(e.name) == Some(row),
    ensures
        ({
            let files = files_among(entries);
            let weight = EXECUTABLE_ENTRIES@[row].2 as int;
            &&& program_findings(files).len() == 1
            &&& program_findings(files)[0].risk >= weight
            &&& finding::worst_risk(entry_findings(entries, filename)) >= weight
            &&& files.len() <= 3 && at_root(e.name) ==> program_findings(files)[0].risk
                >= vstd::math::min(7_000, weight + 3_000) && finding::worst_risk(
                entry_findings(entries, filename),
            ) >= vstd::math::min(7_000, weight + 3_000)
            &&& files.len() > 3 ==> exists|f: EntryModel|
                files.contains(f) && #[trigger] entry_row(f.name) is Some && execution_risk(f)
                    == program_findings(files)[0].risk
        }),
{
    let files = files_among(entries);
    let hits = showing(files, Sign::Executes);
    lemma_file_shows(entries, e, Sign::Executes);
    lemma_most_direct(hits);
    let k = choose|k: int| 0 <= k < hits.len() && hits[k] == e;
    assert(execution_risk(hits[k]) <= execution_risk(most_direct(hits)));
    let direct = most_direct(hits);
    let m = choose|m: int| 0 <= m < hits.len() && hits[m] == direct;
    lemma_shown_shows(files, Sign::Executes, m);
    let own = entry_row(direct.name)->0;
    let ext = entry_extension(direct.name)->0;
    assert(executable_row_at(ext, own));
    if files.len() <= 3 && at_root(e.name) {
        lemma_file_shows(entries, e, Sign::ExecutesFromRoot);
    }
    assert(0 < EXECUTABLE_ENTRIES@[own].2 <= 6_000);
    let f = program_findings(files)[0];
    finding::lemma_single_is_reported(program_findings(files), f.severity, f.risk);
    lemma_parts(entries, filename, program_findings(files), f.severity, f.risk);
    finding::law_what_is_reported_counts(
        entry_findings(entries, filename),
        f.severity,
        f.risk,
    );
}

/// An archive of programs under the name of a document or a picture is reported.
pub proof fn law_an_archive_under_a_mask_is_reported(
    entries: Seq<EntryModel>,
    filename: Seq<char>,
    e: EntryModel,
)
    requires
        entries.contains(e),
        !e.is_directory,
        entry_row(e.name) is Some,
        ({
            let ext = text::claimed_extension(filename);
            ||| ext == "pdf"@
            ||| ext == "doc"@
            ||| ext == "txt"@
            ||| ext == "rtf"@
            ||| ext == "jpg"@
            ||| ext == "png"@
        }),
    ensures
        finding::reports(entry_findings(entries, filename), Severity::High, 7_000),
{
    let ext = text::claimed_extension(filename);
    let list = MASK_EXTENSIONS@;
    assert(list[0]@ == "pdf"@ && list[1]@ == "doc"@ && list[2]@ == "txt"@ && list[3]@ == "rtf"@
        && list[4]@ == "jpg"@ && list[5]@ == "png"@);
    assert(list.len() == 6);
    assert(text::one_of(ext, list));
    lemma_file_shows(entries, e, Sign::Executes);
    let files = files_among(entries);
    finding::lemma_single_is_reported(masked_findings(files, filename), Severity::High, 7_000);
    lemma_parts(entries, filename, masked_findings(files, filename), Severity::High, 7_000);
}

/// A file that is no readable archive is not reported as one.
pub proof fn law_no_archive_gives_nothing(data: Seq<u8>, filename: Seq<char>)
    ensures
        archive_entries(data) is None ==> archive_findings(data, filename).len() == 0,
        archive_entries(data) matches Some(entries) ==> archive_findings(data, filename)
            == entry_findings(entries, filename),
{
}

/// The end record is found behind any comment that can follow it: the last
/// place that shows its signature, as far back as a comment can reach.
pub proof fn law_the_end_record_is_found(front: Seq<u8>, record: Seq<u8>)
    requires
        4 <= record.len() <= 65_557,
        sequences::last_at(front + record, seq![0x50u8, 0x4B, 0x05, 0x06], front.len() as int),
    ensures
        eocd_at(front + record) == Some(front.len() as int),
{
    let data = front + record;
    let mark = seq![0x50u8, 0x4B, 0x05, 0x06];
    let from = search_start(data);
    let window = data.skip(from);
    let at = front.len() - from;
    assert(ZIP_END@ =~= mark);
    assert(window.subrange(at, at + 4) =~= data.subrange(at + from, at + from + 4));
    assert forall|j: int| at < j implies !sequences::occurs_at(window, mark, j) by {
        if sequences::occurs_at(window, mark, j) {
            assert(data.subrange(j + from, j + from + 4) =~= window.subrange(j, j + 4));
            assert(sequences::occurs_at(data, mark, j + from));
        }
    }
    sequences::lemma_last(window, mark, at);
}

/// Where a field of the end record overflowed, the larger record that its
/// locator names gives the number of entries and the place of the directory.
pub proof fn law_an_overflowed_record_is_replaced(data: Seq<u8>, at: int, larger: int)
    requires
        eocd_at(data) == Some(at),
        at + 20 <= data.len(),
        bytes::word16(data, at + 10) == Some(0xFFFFu16) || bytes::word32(data, at + 16) == Some(
            0xFFFF_FFFFu32,
        ),
        sequences::occurs_at(data, seq![0x50u8, 0x4B, 0x06, 0x07], at - 20),
        bytes::word64(data, at - 12) matches Some(place) && place == larger,
        sequences::occurs_at(data, seq![0x50u8, 0x4B, 0x06, 0x06], larger),
        larger + 56 <= data.len(),
        bytes::word64(data, larger + 48)->0 < data.len(),
    ensures
        directory(data) == Some(
            (
                bytes::word64(data, larger + 48)->0 as int,
                bytes::word64(data, larger + 32)->0 as int,
            ),
        ),
{
    assert(ZIP64_LOCATOR@ =~= seq![0x50u8, 0x4B, 0x06, 0x07]);
    assert(ZIP64_END@ =~= seq![0x50u8, 0x4B, 0x06, 0x06]);
}

/// Where none did, the end record itself gives them.
pub proof fn law_the_end_record_names_the_directory(data: Seq<u8>, at: int)
    requires
        eocd_at(data) == Some(at),
        0 <= at,
        at + 20 <= data.len(),
        bytes::word16(data, at + 10) != Some(0xFFFFu16),
        bytes::word32(data, at + 16) != Some(0xFFFF_FFFFu32),
    ensures
        bytes::word32(data, at + 16)->0 < data.len() ==> directory(data) == Some(
            (bytes::word32(data, at + 16)->0 as int, bytes::word16(data, at + 10)->0 as int),
        ),
        bytes::word32(data, at + 16)->0 >= data.len() ==> directory(data) is None,
{
}

/// Of the sizes in an extra field only those are present that overflowed, the
/// uncompressed one first, wherever the field stands among others.
pub proof fn law_only_overflowed_sizes_are_present(other: Seq<u8>, body: Seq<u8>, rest: Seq<u8>)
    requires
        body.len() >= 16,
        body.len() <= 0xFFFF,
        other.len() <= 0xFFFF,
    ensures
        ({
            let field = bytes::bytes16(1) + bytes::bytes16(body.len() as u16) + body;
            let before = bytes::bytes16(0x5455) + bytes::bytes16(other.len() as u16) + other;
            let extra = before + field + rest;
            &&& extended_sizes(extra, true, true) == (
                bytes::word64(body, 0),
                bytes::word64(body, 8),
            )
            &&& extended_sizes(extra, true, false) == (bytes::word64(body, 0), None::<u64>)
            &&& extended_sizes(extra, false, true) == (None::<u64>, bytes::word64(body, 0))
            &&& extended_sizes(field + rest, true, true) == (
                bytes::word64(body, 0),
                bytes::word64(body, 8),
            )
        }),
{
    let field = bytes::bytes16(1) + bytes::bytes16(body.len() as u16) + body;
    let before = bytes::bytes16(0x5455) + bytes::bytes16(other.len() as u16) + other;
    let extra = before + field + rest;
    let n = before.len() as int;
    assert(n == 4 + other.len());
    assert(bytes::word16(extra, 0) == Some(0x5455u16));
    assert(bytes::word16(extra, 2) == Some(other.len() as u16));
    assert(bytes::word16(extra, n) == Some(1u16)) by {
        assert(extra[n] == field[0] && extra[n + 1] == field[1]);
    }
    assert(bytes::word16(extra, n + 2) == Some(body.len() as u16)) by {
        assert(extra[n + 2] == field[2] && extra[n + 3] == field[3]);
    }
    assert(extra.subrange(n + 4, n + 4 + body.len()) =~= body);
    assert(zip64_field(extra, n) == Some(body));
    assert(zip64_field(extra, 0) == zip64_field(extra, n));
    let short = field + rest;
    assert(bytes::word16(short, 0) == Some(1u16));
    assert(bytes::word16(short, 2) == Some(body.len() as u16));
    assert(short.subrange(4, (4 + body.len()) as int) =~= body);
    assert(zip64_field(short, 0) == Some(body));
}

/// The sizes of an entry are those that its header gives, unless a field
/// overflowed and the extra fields hold what did not fit.
pub proof fn law_where_the_sizes_of_an_entry_stand(data: Seq<u8>, off: int)
    requires
        0 <= off,
        entry_fits(data, off),
    ensures
        ({
            let e = entry_at(data, off);
            let compressed = bytes::word32(data, off + 20)->0;
            let uncompressed = bytes::word32(data, off + 24)->0;
            let held = extended_sizes(
                entry_extra(data, off),
                uncompressed == 0xFFFF_FFFF,
                compressed == 0xFFFF_FFFF,
            );
            &&& compressed < 0xFFFF_FFFF ==> e.compressed_size == compressed
            &&& uncompressed < 0xFFFF_FFFF ==> e.uncompressed_size == uncompressed
            &&& compressed == 0xFFFF_FFFF && held.1 is Some ==> Some(e.compressed_size) == held.1
            &&& uncompressed == 0xFFFF_FFFF && held.0 is Some ==> Some(e.uncompressed_size)
                == held.0
            &&& e.encrypted <==> data[off + 8] % 2 == 1
            &&& e.is_directory <==> folder(e.name, e.compressed_size, e.uncompressed_size)
        }),
{
    assert(data[off + 8] + 0x100 * data[off + 9] == bytes::word16(data, off + 8)->0);
}

/// Entries follow each other without a gap: behind the fixed part of one stand
/// its name, its extra fields and its comment, and then the next.
pub proof fn law_entries_follow_each_other(data: Seq<u8>, off: int)
    requires
        0 <= off,
        entry_fits(data, off),
    ensures
        next_entry(data, off) == off + 46 + (data[off + 28] + 0x100 * data[off + 29]) + (data[off
            + 30] + 0x100 * data[off + 31]) + (data[off + 32] + 0x100 * data[off + 33]),
        entry_at(data, off).name == text::utf8_lossy(
            data.subrange(
                off + 46,
                off + 46 + vstd::math::min(
                    data[off + 28] + 0x100 * data[off + 29],
                    1_024,
                ),
            ),
        ),
{
}

/// A listing goes on as long as entries are declared and there, and breaks off
/// at the first that is not.
pub proof fn law_a_listing_goes_on(data: Seq<u8>, off: int, n: nat)
    requires
        n > 0,
        0 <= off,
        off + 4 <= data.len(),
    ensures
        data[off] == 0x50 && data[off + 1] == 0x4B && data[off + 2] == 0x01 && data[off + 3] == 0x02
            && entry_fits(data, off) ==> match entries_from(
            data,
            next_entry(data, off),
            (n - 1) as nat,
        ) {
            Some(rest) => entries_from(data, off, n) == Some(seq![entry_at(data, off)] + rest),
            None => entries_from(data, off, n) is None,
        },
        data[off] != 0x50 ==> entries_from(data, off, n) == Some(Seq::<EntryModel>::empty()),
{
    let mark = data.subrange(off, off + 4);
    assert(mark[0] == data[off] && mark[1] == data[off + 1] && mark[2] == data[off + 2] && mark[3]
        == data[off + 3]);
    if data[off] == 0x50 && data[off + 1] == 0x4B && data[off + 2] == 0x01 && data[off + 3]
        == 0x02 {
        assert(mark =~= CENTRAL_ENTRY@);
    }
}

/// The extra fields of an entry stand behind its name, as many bytes as it
/// declares; where the data ends before that, there are none.
pub proof fn law_where_the_extra_fields_stand(data: Seq<u8>, off: int)
    requires
        0 <= off,
        entry_fits(data, off),
    ensures
        ({
            let start = off + 46 + data[off + 28] + 0x100 * data[off + 29];
            let end = start + data[off + 30] + 0x100 * data[off + 31];
            &&& end <= data.len() ==> entry_extra(data, off) == data.subrange(start, end)
            &&& end > data.len() ==> entry_extra(data, off).len() == 0
        }),
{
}

/// Marks that turn the direction of text are spelled out where a name is shown,
/// and every other character is shown as it is.
pub proof fn law_marks_are_spelled_out(name: Seq<char>, c: char)
    ensures
        marks_spelled_out(Seq::empty()).len() == 0,
        c == '\u{202E}' || c == '\u{202D}' || c == '\u{200F}' ==> marks_spelled_out(name.push(c))
            == marks_spelled_out(name) + "<RLO>"@,
        c != '\u{202E}' && c != '\u{202D}' && c != '\u{200F}' ==> marks_spelled_out(name.push(c))
            == marks_spelled_out(name).push(c),
{
    assert(name.push(c).drop_last() =~= name);
}

} // verus!
