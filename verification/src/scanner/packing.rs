//! How a ZIP of stored files is laid out, and that listing one gives back what
//! was packed.
use crate::bytes;
use crate::scanner::archive;
use crate::scanner::archive::{EntryModel, CENTRAL_ENTRY, MAX_ENTRIES, MAX_NAME_LEN};
use crate::scanner::structure::ZIP_END;
use crate::sequences;
use vstd::prelude::*;

verus! {

/// A file that is packed.
pub struct Packed {
    pub name: Seq<char>,
    pub content: Seq<u8>,
    pub encrypted: bool,
}

/// The bytes of the file's name.
pub open spec fn name_bytes(e: Packed) -> Seq<u8> {
    vstd::utf8::encode_utf8(e.name)
}

/// What a listing says of the file: stored as it is, so both sizes agree.
pub open spec fn listed(e: Packed) -> EntryModel {
    let size = e.content.len() as u64;
    EntryModel {
        name: e.name,
        compressed_size: size,
        uncompressed_size: size,
        encrypted: e.encrypted,
        is_directory: archive::folder(e.name, size, size),
    }
}

/// What a listing says of the files, in their order.
pub open spec fn all_listed(es: Seq<Packed>) -> Seq<EntryModel> {
    Seq::new(es.len(), |i: int| listed(es[i]))
}

/// The fields that both headers of a file share: flags, method, time,
/// checksum, the two sizes and the length of the name.
pub open spec fn shared_fields(e: Packed) -> Seq<u8> {
    let flags: u16 = if e.encrypted {
        1
    } else {
        0
    };
    let size = bytes::bytes32(e.content.len() as u32);
    bytes::bytes16(flags) + bytes::bytes16(0) + bytes::bytes32(0) + bytes::bytes32(0) + size + size
        + bytes::bytes16(name_bytes(e).len() as u16)
}

/// The file itself: its local header, its name and its content.
pub open spec fn local_part(e: Packed) -> Seq<u8> {
    seq![0x50u8, 0x4B, 0x03, 0x04] + bytes::bytes16(20) + shared_fields(e) + bytes::bytes16(0)
        + name_bytes(e) + e.content
}

/// What an entry of the central directory begins with: its signature and two
/// versions.
pub open spec fn central_lead() -> Seq<u8> {
    CENTRAL_ENTRY@ + bytes::bytes16(20) + bytes::bytes16(20)
}

/// What stands before the name in an entry of the central directory: no extra
/// fields, no comment, no attributes, and where the file stands.
pub open spec fn central_trail(at: u32) -> Seq<u8> {
    bytes::bytes16(0) + bytes::bytes16(0) + bytes::bytes16(0) + bytes::bytes16(0) + bytes::bytes32(
        0,
    ) + bytes::bytes32(at)
}

/// The header of a file's entry in the central directory, up to the name. The
/// file stands at `at`.
pub open spec fn central_header(e: Packed, at: u32) -> Seq<u8> {
    central_lead() + shared_fields(e) + central_trail(at)
}

/// A file's entry in the central directory.
pub open spec fn central_part(e: Packed, at: u32) -> Seq<u8> {
    central_header(e, at) + name_bytes(e)
}

/// The files, one behind the other.
pub open spec fn local_parts(es: Seq<Packed>) -> Seq<u8>
    decreases es.len(),
{
    if es.len() == 0 {
        Seq::empty()
    } else {
        local_parts(es.drop_last()) + local_part(es.last())
    }
}

/// The central directory.
pub open spec fn central_parts(es: Seq<Packed>) -> Seq<u8>
    decreases es.len(),
{
    if es.len() == 0 {
        Seq::empty()
    } else {
        central_parts(es.drop_last()) + central_part(
            es.last(),
            local_parts(es.drop_last()).len() as u32,
        )
    }
}

/// What the end-of-central-directory record begins with: its signature, and the
/// numbers of the disks.
pub open spec fn end_lead() -> Seq<u8> {
    ZIP_END@ + bytes::bytes32(0)
}

/// How much the record says there is: entries on this disk and in all, and the
/// size of the directory.
pub open spec fn end_counts(count: u16, size: u32) -> Seq<u8> {
    bytes::bytes16(count) + bytes::bytes16(count) + bytes::bytes32(size)
}

/// What the record ends with: where the directory starts, and no comment.
pub open spec fn end_trail(offset: u32) -> Seq<u8> {
    bytes::bytes32(offset) + bytes::bytes16(0)
}

/// The end-of-central-directory record, without a comment.
pub open spec fn end_record(count: u16, size: u32, offset: u32) -> Seq<u8> {
    end_lead() + end_counts(count, size) + end_trail(offset)
}

/// The archive of some files.
pub open spec fn packed(es: Seq<Packed>) -> Seq<u8> {
    local_parts(es) + central_parts(es) + end_record(
        es.len() as u16,
        central_parts(es).len() as u32,
        local_parts(es).len() as u32,
    )
}

/// Every name is short enough to be read whole.
pub open spec fn names_fit(es: Seq<Packed>) -> bool {
    forall|i: int| 0 <= i < es.len() ==> name_bytes(#[trigger] es[i]).len() <= MAX_NAME_LEN
}

// ---------------------------------------------------------------------------
// Fields
// ---------------------------------------------------------------------------

/// A 16-bit field reads as it was written.
proof fn lemma_field16(data: Seq<u8>, off: int, n: u16)
    requires
        sequences::occurs_at(data, bytes::bytes16(n), off),
    ensures
        bytes::word16(data, off) == Some(n),
{
    let part = data.subrange(off, off + 2);
    assert(part[0] == data[off] && part[1] == data[off + 1]);
}

/// A 32-bit field reads as it was written.
proof fn lemma_field32(data: Seq<u8>, off: int, n: u32)
    requires
        sequences::occurs_at(data, bytes::bytes32(n), off),
    ensures
        bytes::word32(data, off) == Some(n),
{
    let part = data.subrange(off, off + 4);
    assert(part[0] == data[off] && part[1] == data[off + 1]);
    assert(part[2] == data[off + 2] && part[3] == data[off + 3]);
}

/// What occurs in a part occurs in the whole.
proof fn lemma_within(data: Seq<u8>, part: Seq<u8>, off: int, pat: Seq<u8>, at: int)
    requires
        sequences::occurs_at(data, part, off),
        sequences::occurs_at(part, pat, at),
    ensures
        sequences::occurs_at(data, pat, off + at),
{
    assert(part == data.subrange(off, off + part.len()));
    assert(data.subrange(off + at, off + at + pat.len()) =~= part.subrange(at, at + pat.len()));
}

/// Each of three parts occurs behind those before it.
proof fn lemma_three(a: Seq<u8>, b: Seq<u8>, c: Seq<u8>)
    ensures
        (a + b + c).len() == a.len() + b.len() + c.len(),
        sequences::occurs_at(a + b + c, a, 0),
        sequences::occurs_at(a + b + c, b, a.len() as int),
        sequences::occurs_at(a + b + c, c, (a.len() + b.len()) as int),
{
    let s = a + b + c;
    assert(s.subrange(0, a.len() as int) =~= a);
    assert(s.subrange(a.len() as int, (a.len() + b.len()) as int) =~= b);
    assert(s.subrange((a.len() + b.len()) as int, s.len() as int) =~= c);
}

/// Where the fields that both headers share stand.
proof fn lemma_shared_fields(e: Packed)
    ensures
        shared_fields(e).len() == 22,
        sequences::occurs_at(
            shared_fields(e),
            bytes::bytes16(
                if e.encrypted {
                    1
                } else {
                    0
                },
            ),
            0,
        ),
        sequences::occurs_at(shared_fields(e), bytes::bytes32(e.content.len() as u32), 12),
        sequences::occurs_at(shared_fields(e), bytes::bytes32(e.content.len() as u32), 16),
        sequences::occurs_at(shared_fields(e), bytes::bytes16(name_bytes(e).len() as u16), 20),
{
    let s = shared_fields(e);
    let flags: u16 = if e.encrypted {
        1
    } else {
        0
    };
    let size = bytes::bytes32(e.content.len() as u32);
    assert(s.subrange(0, 2) =~= bytes::bytes16(flags));
    assert(s.subrange(12, 16) =~= size);
    assert(s.subrange(16, 20) =~= size);
    assert(s.subrange(20, 22) =~= bytes::bytes16(name_bytes(e).len() as u16));
}

/// Where the ends of an entry's header have their fields.
proof fn lemma_central_ends(at: u32)
    ensures
        central_lead().len() == 8,
        sequences::occurs_at(central_lead(), CENTRAL_ENTRY@, 0),
        central_trail(at).len() == 16,
        sequences::occurs_at(central_trail(at), bytes::bytes16(0), 0),
        sequences::occurs_at(central_trail(at), bytes::bytes16(0), 2),
{
    assert(central_lead().subrange(0, 4) =~= CENTRAL_ENTRY@);
    assert(central_trail(at).subrange(0, 2) =~= bytes::bytes16(0));
    assert(central_trail(at).subrange(2, 4) =~= bytes::bytes16(0));
}

/// Where the parts of an entry's header stand.
proof fn lemma_central_header(e: Packed, at: u32)
    ensures
        central_header(e, at).len() == 46,
        sequences::occurs_at(central_header(e, at), CENTRAL_ENTRY@, 0),
        sequences::occurs_at(central_header(e, at), shared_fields(e), 8),
        sequences::occurs_at(central_header(e, at), bytes::bytes16(0), 30),
        sequences::occurs_at(central_header(e, at), bytes::bytes16(0), 32),
{
    lemma_central_ends(at);
    lemma_shared_fields(e);
    lemma_three(central_lead(), shared_fields(e), central_trail(at));
    let h = central_header(e, at);
    lemma_within(h, central_lead(), 0, CENTRAL_ENTRY@, 0);
    lemma_within(h, central_trail(at), 30, bytes::bytes16(0), 0);
    lemma_within(h, central_trail(at), 30, bytes::bytes16(0), 2);
}

/// The fields of an entry's header `h` read as they were written. `f` is what
/// it shares with the local header.
proof fn lemma_fields_are_read(
    data: Seq<u8>,
    off: int,
    h: Seq<u8>,
    f: Seq<u8>,
    flags: u16,
    size: u32,
    name_len: u16,
)
    requires
        sequences::occurs_at(data, h, off),
        sequences::occurs_at(h, f, 8),
        sequences::occurs_at(h, bytes::bytes16(0), 30),
        sequences::occurs_at(h, bytes::bytes16(0), 32),
        sequences::occurs_at(f, bytes::bytes16(flags), 0),
        sequences::occurs_at(f, bytes::bytes32(size), 12),
        sequences::occurs_at(f, bytes::bytes32(size), 16),
        sequences::occurs_at(f, bytes::bytes16(name_len), 20),
    ensures
        bytes::word16(data, off + 8) == Some(flags),
        bytes::word32(data, off + 20) == Some(size),
        bytes::word32(data, off + 24) == Some(size),
        bytes::word16(data, off + 28) == Some(name_len),
        bytes::word16(data, off + 30) == Some(0u16),
        bytes::word16(data, off + 32) == Some(0u16),
{
    lemma_within(data, h, off, f, 8);
    lemma_within(data, h, off, bytes::bytes16(0), 30);
    lemma_within(data, h, off, bytes::bytes16(0), 32);
    lemma_within(data, f, off + 8, bytes::bytes16(flags), 0);
    lemma_within(data, f, off + 8, bytes::bytes32(size), 12);
    lemma_within(data, f, off + 8, bytes::bytes32(size), 16);
    lemma_within(data, f, off + 8, bytes::bytes16(name_len), 20);
    lemma_field16(data, off + 8, flags);
    lemma_field32(data, off + 20, size);
    lemma_field32(data, off + 24, size);
    lemma_field16(data, off + 28, name_len);
    lemma_field16(data, off + 30, 0);
    lemma_field16(data, off + 32, 0);
}

/// A name reads as it was written.
proof fn lemma_name_is_read(data: Seq<u8>, off: int, name: Seq<char>)
    requires
        vstd::utf8::encode_utf8(name).len() <= MAX_NAME_LEN,
        sequences::occurs_at(data, vstd::utf8::encode_utf8(name), off + 46),
        bytes::word16(data, off + 28) == Some(vstd::utf8::encode_utf8(name).len() as u16),
    ensures
        archive::entry_name(data, off) == name,
{
    vstd::utf8::encode_utf8_valid_utf8(name);
    vstd::utf8::encode_utf8_decode_utf8(name);
}

/// The header of an entry, and the name behind it.
proof fn lemma_central_part(data: Seq<u8>, e: Packed, at: u32, off: int)
    requires
        sequences::occurs_at(data, central_part(e, at), off),
    ensures
        central_part(e, at).len() == 46 + name_bytes(e).len(),
        sequences::occurs_at(data, central_header(e, at), off),
        sequences::occurs_at(data, CENTRAL_ENTRY@, off),
        sequences::occurs_at(data, name_bytes(e), off + 46),
{
    let h = central_header(e, at);
    let part = central_part(e, at);
    lemma_central_header(e, at);
    lemma_three(h, name_bytes(e), Seq::empty());
    assert(h + name_bytes(e) + Seq::<u8>::empty() =~= part);
    lemma_within(data, part, off, h, 0);
    lemma_within(data, part, off, name_bytes(e), 46);
    lemma_within(data, h, off, CENTRAL_ENTRY@, 0);
}

/// An entry with these fields and this name reads as it was written.
proof fn lemma_fields_make_the_entry(data: Seq<u8>, off: int, e: Packed)
    requires
        sequences::occurs_at(data, vstd::utf8::encode_utf8(e.name), off + 46),
        vstd::utf8::encode_utf8(e.name).len() <= MAX_NAME_LEN,
        e.content.len() < 0xFFFF_FFFF,
        bytes::word16(data, off + 8) == Some(
            if e.encrypted {
                1u16
            } else {
                0u16
            },
        ),
        bytes::word32(data, off + 20) == Some(e.content.len() as u32),
        bytes::word32(data, off + 24) == Some(e.content.len() as u32),
        bytes::word16(data, off + 28) == Some(vstd::utf8::encode_utf8(e.name).len() as u16),
        bytes::word16(data, off + 30) == Some(0u16),
        bytes::word16(data, off + 32) == Some(0u16),
    ensures
        archive::entry_fits(data, off),
        archive::entry_at(data, off) == listed(e),
        archive::next_entry(data, off) == off + 46 + vstd::utf8::encode_utf8(e.name).len(),
{
    lemma_name_is_read(data, off, e.name);
}

/// An entry of the central directory reads as it was written.
proof fn lemma_entry_is_read(data: Seq<u8>, e: Packed, at: u32, off: int)
    requires
        sequences::occurs_at(data, central_part(e, at), off),
        name_bytes(e).len() <= MAX_NAME_LEN,
        e.content.len() < 0xFFFF_FFFF,
    ensures
        sequences::occurs_at(data, CENTRAL_ENTRY@, off),
        archive::entry_fits(data, off),
        archive::entry_at(data, off) == listed(e),
        archive::next_entry(data, off) == off + central_part(e, at).len(),
{
    let flags: u16 = if e.encrypted {
        1
    } else {
        0
    };
    lemma_central_part(data, e, at, off);
    lemma_central_fields(data, e, at, off, flags);
    lemma_fields_make_the_entry(data, off, e);
}

/// The fields of an entry read as they were written.
proof fn lemma_central_fields(data: Seq<u8>, e: Packed, at: u32, off: int, flags: u16)
    requires
        sequences::occurs_at(data, central_header(e, at), off),
        flags == if e.encrypted {
            1u16
        } else {
            0u16
        },
    ensures
        bytes::word16(data, off + 8) == Some(flags),
        bytes::word32(data, off + 20) == Some(e.content.len() as u32),
        bytes::word32(data, off + 24) == Some(e.content.len() as u32),
        bytes::word16(data, off + 28) == Some(name_bytes(e).len() as u16),
        bytes::word16(data, off + 30) == Some(0u16),
        bytes::word16(data, off + 32) == Some(0u16),
{
    lemma_central_header(e, at);
    lemma_shared_fields(e);
    lemma_fields_are_read(
        data,
        off,
        central_header(e, at),
        shared_fields(e),
        flags,
        e.content.len() as u32,
        name_bytes(e).len() as u16,
    );
}

// ---------------------------------------------------------------------------
// The directory
// ---------------------------------------------------------------------------

/// Each entry stands in the directory behind those before it.
proof fn lemma_entry_stands(es: Seq<Packed>, k: int)
    requires
        0 <= k < es.len(),
    ensures
        sequences::occurs_at(
            central_parts(es),
            central_part(es[k], local_parts(es.take(k)).len() as u32),
            central_parts(es.take(k)).len() as int,
        ),
        central_parts(es.take(k + 1)).len() == central_parts(es.take(k)).len() + central_part(
            es[k],
            local_parts(es.take(k)).len() as u32,
        ).len(),
    decreases es.len(),
{
    let before = es.drop_last();
    let last = central_part(es.last(), local_parts(before).len() as u32);
    assert(es.take(k + 1).drop_last() =~= es.take(k));
    assert(es.take(k + 1).last() == es[k]);
    if k == es.len() - 1 {
        assert(es.take(k) =~= before);
        assert(central_parts(before) + last + Seq::<u8>::empty() =~= central_parts(es));
        lemma_three(central_parts(before), last, Seq::empty());
    } else {
        lemma_entry_stands(before, k);
        assert(before.take(k) =~= es.take(k));
        assert(central_parts(es).subrange(0, central_parts(before).len() as int)
            =~= central_parts(before));
        lemma_within(
            central_parts(es),
            central_parts(before),
            0,
            central_part(es[k], local_parts(es.take(k)).len() as u32),
            central_parts(es.take(k)).len() as int,
        );
    }
}

/// The directory is no larger than its entries can make it.
proof fn lemma_directory_is_small(es: Seq<Packed>)
    requires
        names_fit(es),
    ensures
        central_parts(es).len() <= 1070 * es.len(),
    decreases es.len(),
{
    if es.len() > 0 {
        let before = es.drop_last();
        assert forall|i: int| 0 <= i < before.len() implies name_bytes(#[trigger] before[i]).len()
            <= MAX_NAME_LEN by {
            assert(before[i] == es[i]);
        }
        lemma_directory_is_small(before);
        lemma_central_header(es.last(), local_parts(before).len() as u32);
        assert(name_bytes(es[es.len() - 1]).len() <= MAX_NAME_LEN);
    }
}

/// The content of each file is part of the archive.
proof fn lemma_content_is_held(es: Seq<Packed>, k: int)
    requires
        0 <= k < es.len(),
    ensures
        es[k].content.len() <= local_parts(es).len(),
    decreases es.len(),
{
    if k < es.len() - 1 {
        lemma_content_is_held(es.drop_last(), k);
    }
}

/// Reading the directory gives back the entries from the `k`th on.
proof fn lemma_entries_are_read(es: Seq<Packed>, data: Seq<u8>, at: int, k: nat)
    requires
        k <= es.len(),
        names_fit(es),
        local_parts(es).len() < 0xFFFF_FFFF,
        sequences::occurs_at(data, central_parts(es), at),
    ensures
        archive::entries_from(
            data,
            at + central_parts(es.take(k as int)).len(),
            (es.len() - k) as nat,
        ) == Some(all_listed(es).skip(k as int)),
    decreases es.len() - k,
{
    let rest = all_listed(es).skip(k as int);
    if k == es.len() {
        assert(rest =~= Seq::<EntryModel>::empty());
    } else {
        let off = at + central_parts(es.take(k as int)).len();
        let part = central_part(es[k as int], local_parts(es.take(k as int)).len() as u32);
        lemma_entry_stands(es, k as int);
        lemma_within(
            data,
            central_parts(es),
            at,
            part,
            central_parts(es.take(k as int)).len() as int,
        );
        lemma_content_is_held(es, k as int);
        lemma_entry_is_read(
            data,
            es[k as int],
            local_parts(es.take(k as int)).len() as u32,
            off,
        );
        lemma_entries_are_read(es, data, at, k + 1);
        assert(seq![listed(es[k as int])] + all_listed(es).skip(k as int + 1) =~= rest);
    }
}

/// The directory starts with the signature of an entry, where there is one.
proof fn lemma_first_entry(es: Seq<Packed>, data: Seq<u8>, at: int)
    requires
        es.len() > 0,
        sequences::occurs_at(data, central_parts(es), at),
    ensures
        sequences::occurs_at(data, CENTRAL_ENTRY@, at),
{
    let place = local_parts(es.take(0)).len() as u32;
    assert(es.take(0) =~= Seq::<Packed>::empty());
    lemma_entry_stands(es, 0);
    lemma_within(data, central_parts(es), at, central_part(es[0], place), 0);
    lemma_central_part(data, es[0], place, at);
}

// ---------------------------------------------------------------------------
// The end record
// ---------------------------------------------------------------------------

/// Where the parts of the end record have their fields.
proof fn lemma_end_parts(count: u16, size: u32, offset: u32)
    ensures
        end_lead().len() == 8,
        sequences::occurs_at(end_lead(), ZIP_END@, 0),
        sequences::occurs_at(end_lead(), bytes::bytes32(0), 4),
        end_counts(count, size).len() == 8,
        sequences::occurs_at(end_counts(count, size), bytes::bytes16(count), 0),
        sequences::occurs_at(end_counts(count, size), bytes::bytes16(count), 2),
        sequences::occurs_at(end_counts(count, size), bytes::bytes32(size), 4),
        end_trail(offset).len() == 6,
        sequences::occurs_at(end_trail(offset), bytes::bytes32(offset), 0),
        sequences::occurs_at(end_trail(offset), bytes::bytes16(0), 4),
{
    let none = Seq::<u8>::empty();
    let two = bytes::bytes16(count);
    let four = bytes::bytes32(size);
    lemma_three(ZIP_END@, bytes::bytes32(0), none);
    assert(ZIP_END@ + bytes::bytes32(0) + none =~= end_lead());
    lemma_three(two, two, four);
    lemma_three(bytes::bytes32(offset), bytes::bytes16(0), none);
    assert(bytes::bytes32(offset) + bytes::bytes16(0) + none =~= end_trail(offset));
}

/// Where the fields of the end record stand.
proof fn lemma_end_record(count: u16, size: u32, offset: u32)
    ensures
        end_record(count, size, offset).len() == 22,
        sequences::occurs_at(end_record(count, size, offset), ZIP_END@, 0),
        sequences::occurs_at(end_record(count, size, offset), bytes::bytes32(0), 4),
        sequences::occurs_at(end_record(count, size, offset), bytes::bytes16(count), 8),
        sequences::occurs_at(end_record(count, size, offset), bytes::bytes16(count), 10),
        sequences::occurs_at(end_record(count, size, offset), bytes::bytes32(size), 12),
        sequences::occurs_at(end_record(count, size, offset), bytes::bytes32(offset), 16),
        sequences::occurs_at(end_record(count, size, offset), bytes::bytes16(0), 20),
{
    let r = end_record(count, size, offset);
    let lead = end_lead();
    let counts = end_counts(count, size);
    let trail = end_trail(offset);
    lemma_end_parts(count, size, offset);
    lemma_three(lead, counts, trail);
    lemma_within(r, lead, 0, ZIP_END@, 0);
    lemma_within(r, lead, 0, bytes::bytes32(0), 4);
    lemma_within(r, counts, 8, bytes::bytes16(count), 0);
    lemma_within(r, counts, 8, bytes::bytes16(count), 2);
    lemma_within(r, counts, 8, bytes::bytes32(size), 4);
    lemma_within(r, trail, 16, bytes::bytes32(offset), 0);
    lemma_within(r, trail, 16, bytes::bytes16(0), 4);
}

/// A byte of what occurs in some data.
proof fn lemma_byte(data: Seq<u8>, pat: Seq<u8>, off: int, k: int)
    requires
        sequences::occurs_at(data, pat, off),
        0 <= k < pat.len(),
    ensures
        data[off + k] == pat[k],
{
    assert(data.subrange(off, off + pat.len())[k] == data[off + k]);
}

/// The bytes of a record with these fields.
proof fn lemma_end_bytes(r: Seq<u8>, count: u16, size: u32)
    requires
        sequences::occurs_at(r, ZIP_END@, 0),
        sequences::occurs_at(r, bytes::bytes32(0), 4),
        sequences::occurs_at(r, bytes::bytes16(count), 8),
        sequences::occurs_at(r, bytes::bytes16(count), 10),
        sequences::occurs_at(r, bytes::bytes32(size), 12),
        sequences::occurs_at(r, bytes::bytes16(0), 20),
    ensures
        r[1] == 0x4B && r[2] == 0x05 && r[3] == 0x06,
        r[4] == 0 && r[5] == 0 && r[6] == 0 && r[7] == 0,
        r[9] == (count / 0x100) as u8 && r[11] == (count / 0x100) as u8,
        r[15] == (size / 0x100_0000) as u8,
        r[20] == 0 && r[21] == 0,
{
    lemma_byte(r, ZIP_END@, 0, 1);
    lemma_byte(r, ZIP_END@, 0, 2);
    lemma_byte(r, ZIP_END@, 0, 3);
    lemma_byte(r, bytes::bytes32(0), 4, 0);
    lemma_byte(r, bytes::bytes32(0), 4, 1);
    lemma_byte(r, bytes::bytes32(0), 4, 2);
    lemma_byte(r, bytes::bytes32(0), 4, 3);
    lemma_byte(r, bytes::bytes16(count), 8, 1);
    lemma_byte(r, bytes::bytes16(count), 10, 1);
    lemma_byte(r, bytes::bytes32(size), 12, 3);
    lemma_byte(r, bytes::bytes16(0), 20, 0);
    lemma_byte(r, bytes::bytes16(0), 20, 1);
}

/// A second signature in a record with these fields stands at the offset of the
/// directory.
proof fn lemma_signature_in_end(r: Seq<u8>, count: u16, size: u32, offset: u32, j: int)
    requires
        r.len() == 22,
        sequences::occurs_at(r, ZIP_END@, 0),
        sequences::occurs_at(r, bytes::bytes32(0), 4),
        sequences::occurs_at(r, bytes::bytes16(count), 8),
        sequences::occurs_at(r, bytes::bytes16(count), 10),
        sequences::occurs_at(r, bytes::bytes32(size), 12),
        sequences::occurs_at(r, bytes::bytes32(offset), 16),
        sequences::occurs_at(r, bytes::bytes16(0), 20),
        count <= MAX_ENTRIES,
        size < 0x0200_0000,
        0 < j,
        sequences::occurs_at(r, ZIP_END@, j),
    ensures
        offset == 0x0605_4B50,
{
    lemma_end_bytes(r, count, size);
    lemma_byte(r, ZIP_END@, j, 0);
    lemma_byte(r, ZIP_END@, j, 1);
    lemma_byte(r, ZIP_END@, j, 2);
    lemma_byte(r, ZIP_END@, j, 3);
    lemma_second_signature(r, j);
    lemma_field32(r, 16, offset);
}

/// The one place behind the first byte of the end record where a second
/// signature could stand.
proof fn lemma_second_signature(r: Seq<u8>, j: int)
    requires
        r.len() == 22,
        r[1] == 0x4B && r[2] == 0x05 && r[3] == 0x06,
        r[4] == 0 && r[5] == 0 && r[6] == 0 && r[7] == 0,
        r[9] <= 0x40 && r[11] <= 0x40 && r[15] <= 1,
        r[20] == 0 && r[21] == 0,
        0 < j <= 18,
        r[j] == 0x50 && r[j + 1] == 0x4B && r[j + 2] == 0x05 && r[j + 3] == 0x06,
    ensures
        j == 16,
{
}

/// No later place in the end record looks like the start of one.
proof fn lemma_end_record_starts_once(count: u16, size: u32, offset: u32, j: int)
    requires
        count <= MAX_ENTRIES,
        size < 0x0200_0000,
        offset != 0x0605_4B50,
        0 < j,
    ensures
        !sequences::occurs_at(end_record(count, size, offset), ZIP_END@, j),
{
    let r = end_record(count, size, offset);
    lemma_end_record(count, size, offset);
    if sequences::occurs_at(r, ZIP_END@, j) {
        lemma_signature_in_end(r, count, size, offset, j);
    }
}

/// The end record of some data is the one that stands at its end.
proof fn lemma_end_is_found(data: Seq<u8>, end: Seq<u8>)
    requires
        end.len() == 22,
        data.len() >= 22,
        sequences::occurs_at(data, end, data.len() - 22),
        sequences::occurs_at(end, ZIP_END@, 0),
        forall|j: int| 0 < j ==> !sequences::occurs_at(end, ZIP_END@, j),
    ensures
        archive::eocd_at(data) == Some(data.len() - 22),
{
    let at = data.len() - 22;
    let from = archive::search_start(data);
    let window = data.skip(from);
    lemma_within(data, end, at, ZIP_END@, 0);
    assert(window.subrange(at - from, at - from + 4) =~= data.subrange(at, at + 4));
    assert forall|j: int| at - from < j implies !sequences::occurs_at(window, ZIP_END@, j) by {
        if sequences::occurs_at(window, ZIP_END@, j) {
            let k = from + j - at;
            assert(end == data.subrange(at, at + 22));
            assert(end.subrange(k, k + 4) =~= window.subrange(j, j + 4));
            assert(sequences::occurs_at(end, ZIP_END@, k));
        }
    }
    sequences::lemma_last(window, ZIP_END@, at - from);
}

/// The end record leads to the directory.
proof fn lemma_directory_is_found(data: Seq<u8>, count: u16, size: u32, offset: u32)
    requires
        count <= MAX_ENTRIES,
        size < 0x0200_0000,
        offset != 0x0605_4B50,
        offset < data.len() <= u32::MAX,
        data.len() >= 22,
        sequences::occurs_at(data, end_record(count, size, offset), data.len() - 22),
    ensures
        archive::directory(data) == Some((offset as int, count as int)),
{
    let end = end_record(count, size, offset);
    let at = data.len() - 22;
    lemma_end_record(count, size, offset);
    assert forall|j: int| 0 < j implies !sequences::occurs_at(end, ZIP_END@, j) by {
        lemma_end_record_starts_once(count, size, offset, j);
    }
    lemma_end_is_found(data, end);
    lemma_within(data, end, at, bytes::bytes16(count), 10);
    lemma_within(data, end, at, bytes::bytes32(offset), 16);
    lemma_field16(data, at + 10, count);
    lemma_field32(data, at + 16, offset);
}

/// Listing an archive gives what was packed, in its order: every name, both
/// sizes, and whether the file is encrypted.
///
/// The archive holds no more entries than are read, its names are short enough
/// to be read whole, and its sizes fit their fields. Its directory does not
/// start at the one offset whose bytes spell the signature of the end record.
pub proof fn law_listing_gives_back_what_was_packed(es: Seq<Packed>)
    requires
        es.len() <= MAX_ENTRIES,
        names_fit(es),
        packed(es).len() <= u32::MAX,
        local_parts(es).len() != 0x0605_4B50,
    ensures
        archive::archive_entries(packed(es)) == Some(all_listed(es)),
{
    let data = packed(es);
    let files = local_parts(es);
    let index = central_parts(es);
    let end = end_record(es.len() as u16, index.len() as u32, files.len() as u32);
    lemma_directory_is_small(es);
    lemma_three(files, index, end);
    lemma_end_record(es.len() as u16, index.len() as u32, files.len() as u32);
    lemma_directory_is_found(data, es.len() as u16, index.len() as u32, files.len() as u32);
    assert(es.take(0) =~= Seq::<Packed>::empty());
    lemma_entries_are_read(es, data, files.len() as int, 0);
    if es.len() > 0 {
        lemma_first_entry(es, data, files.len() as int);
    }
    assert(all_listed(es).skip(0) =~= all_listed(es));
}

} // verus!
