//! Directory listing for `getdents64`: a listing is a stream of records whose
//! `d_off` fields count bytes from the start of the stream, so a later call
//! with the same buffer resumes where the records already in it end.

use crate::codec::{le_value, read_le};
use crate::dirent::{
    header_bytes, lemma_header_len, overwrite, record_bytes, DirBuffer, DirEnt, FileType,
    DIRENT_FIXED_SIZE,
};
use axerrno::LinuxError;
use vstd::prelude::*;

verus! {

/// One entry of a directory as the backend lists it.
pub struct DirEntryInfo {
    /// The name, without a terminating NUL.
    pub name: Vec<u8>,
    pub file_type: FileType,
}

/// Length of the record of `e`: header, name and its NUL.
pub open spec fn rec_len(e: DirEntryInfo) -> nat {
    (DIRENT_FIXED_SIZE + e.name@.len() + 1) as nat
}

/// Bytes that the records of the first `k` entries take in the stream.
pub open spec fn stream_prefix(es: Seq<DirEntryInfo>, k: nat) -> nat
    decreases k,
{
    if k == 0 || k > es.len() {
        0
    } else {
        stream_prefix(es, (k - 1) as nat) + rec_len(es[k - 1])
    }
}

/// Every record length fits in `d_reclen` and every offset in `d_off`.
pub open spec fn listing_fits_spec(es: Seq<DirEntryInfo>) -> bool {
    &&& forall|i: int| 0 <= i < es.len() ==> rec_len(#[trigger] es[i]) <= u16::MAX
    &&& stream_prefix(es, es.len()) <= i64::MAX
}

/// The header of entry `j`, whose `d_off` is where entry `j + 1` begins.
pub open spec fn entry_header(es: Seq<DirEntryInfo>, j: nat) -> DirEnt {
    DirEnt {
        d_ino: 1,
        d_off: stream_prefix(es, j + 1) as i64,
        d_reclen: rec_len(es[j as int]) as u16,
        d_type: es[j as int].file_type.spec_tag(),
    }
}

pub open spec fn entry_record(es: Seq<DirEntryInfo>, j: nat) -> Seq<u8> {
    record_bytes(entry_header(es, j), es[j as int].name@.push(0))
}

/// The records of entries `from .. to`, one after the other.
pub open spec fn records(es: Seq<DirEntryInfo>, from: nat, to: nat) -> Seq<u8>
    decreases to,
{
    if to <= from {
        seq![]
    } else {
        records(es, from, (to - 1) as nat) + entry_record(es, (to - 1) as nat)
    }
}

/// How many entries, from `j` on, fit whole one after the other in `space`
/// bytes; the first that does not fit ends the run.
pub open spec fn fit_count(es: Seq<DirEntryInfo>, j: nat, space: nat) -> nat
    decreases es.len() - j,
{
    if j >= es.len() || rec_len(es[j as int]) > space {
        0
    } else {
        1 + fit_count(es, j + 1, (space - rec_len(es[j as int])) as nat)
    }
}

/// The header that marks the end of the records: length zero.
pub open spec fn terminal_header(off: nat) -> DirEnt {
    DirEnt { d_ino: 1, d_off: off as i64, d_reclen: 0, d_type: FileType::Reg.spec_tag() }
}

/// Number field of `n` bytes at `pos`.
pub open spec fn field(buf: Seq<u8>, pos: nat, n: nat) -> nat {
    le_value(buf.subrange(pos as int, (pos + n) as int))
}

/// Walks the records that a buffer holds from `pos` on, `last` being the
/// `d_off` of the record before. Gives the stream offset at which the last
/// record ends, or `None` where a record's length or offset is inconsistent.
pub open spec fn scan_from(buf: Seq<u8>, pos: nat, last: nat) -> Option<nat>
    decreases buf.len() - pos,
{
    if pos + DIRENT_FIXED_SIZE > buf.len() {
        Some(last)
    } else {
        let reclen = field(buf, pos + 16, 2);
        let off = field(buf, pos + 8, 8);
        if reclen == 0 {
            Some(last)
        } else if reclen < DIRENT_FIXED_SIZE || pos + reclen > buf.len() {
            None
        } else if (pos == 0 && off < reclen) || (pos > 0 && off != last + reclen) {
            None
        } else {
            scan_from(buf, pos + reclen, off)
        }
    }
}

/// Stream offset that the records already in `buf` reach.
pub open spec fn consumed(buf: Seq<u8>) -> Option<nat> {
    scan_from(buf, 0, 0)
}

/// The first `k` from `from` on at which the stream offset is `c`.
pub open spec fn index_from(es: Seq<DirEntryInfo>, k: nat, c: nat) -> Option<nat>
    decreases es.len() - k,
{
    if stream_prefix(es, k) == c {
        Some(k)
    } else if k >= es.len() || stream_prefix(es, k) > c {
        None
    } else {
        index_from(es, k + 1, c)
    }
}

/// The buffer after records of the entries from `k` on were written at its
/// start, followed by an end marker where any record was written and a
/// header still fits.
pub open spec fn filled(buf: Seq<u8>, es: Seq<DirEntryInfo>, k: nat) -> Seq<u8> {
    let n = fit_count(es, k, buf.len());
    let w = records(es, k, k + n);
    let with_records = overwrite(buf, 0, w);
    if w.len() > 0 && buf.len() - w.len() >= DIRENT_FIXED_SIZE {
        overwrite(with_records, w.len() as int, header_bytes(terminal_header(stream_prefix(es, k + n))))
    } else {
        with_records
    }
}

/// Bytes of records that a call starting at entry `k` writes.
pub open spec fn written_len(len: nat, es: Seq<DirEntryInfo>, k: nat) -> nat {
    records(es, k, k + fit_count(es, k, len)).len()
}

/// What `getdents64` does to the buffer `buf` given the backend's listing:
/// the new buffer and the return value.
pub open spec fn getdents64_spec(buf: Seq<u8>, listing: Option<Seq<DirEntryInfo>>) -> (Seq<u8>, int) {
    if buf.len() < DIRENT_FIXED_SIZE {
        (buf, -1)
    } else {
        match consumed(buf) {
            None => (buf, -22),
            Some(c) => match listing {
                None => (buf, -2),
                Some(es) => match index_from(es, 0, c) {
                    None => (buf, -22),
                    Some(k) => (filled(buf, es, k), written_len(buf.len(), es, k) as int),
                },
            },
        }
    }
}

pub proof fn lemma_prefix_monotone(es: Seq<DirEntryInfo>, a: nat, b: nat)
    requires
        a <= b <= es.len(),
    ensures
        stream_prefix(es, a) <= stream_prefix(es, b),
    decreases b,
{
    if a < b {
        lemma_prefix_monotone(es, a, (b - 1) as nat);
    }
}

pub proof fn lemma_records_len(es: Seq<DirEntryInfo>, from: nat, to: nat)
    requires
        from <= to <= es.len(),
    ensures
        records(es, from, to).len() == stream_prefix(es, to) - stream_prefix(es, from),
    decreases to,
{
    if from < to {
        lemma_records_len(es, from, (to - 1) as nat);
        lemma_header_len(entry_header(es, (to - 1) as nat));
        lemma_prefix_monotone(es, from, (to - 1) as nat);
    }
}

/// Whether `listing_fits_spec` holds of `es`.
pub fn listing_fits(es: &Vec<DirEntryInfo>) -> (r: bool)
    ensures
        r == listing_fits_spec(es@),
{
    let mut j: usize = 0;
    let mut acc: u64 = 0;
    while j < es.len()
        invariant
            j <= es@.len(),
            acc == stream_prefix(es@, j as nat),
            acc <= i64::MAX,
            forall|i: int| 0 <= i < j ==> rec_len(#[trigger] es@[i]) <= u16::MAX,
        decreases es@.len() - j,
    {
        let n = es[j].name.len();
        if n > 65535 - 20 {
            proof {
                assert(rec_len(es@[j as int]) > u16::MAX);
            }
            return false;
        }
        let size = (n + 20) as u64;
        if acc > 0x7fff_ffff_ffff_ffff - size {
            proof {
                lemma_prefix_monotone(es@, (j + 1) as nat, es@.len());
            }
            return false;
        }
        acc = acc + size;
        j = j + 1;
    }
    true
}

/// The stream offset that the records at the start of `buf` reach, or `None`
/// where they are inconsistent (see `scan_from`).
pub fn prior_offset(buf: &Vec<u8>) -> (r: Option<u64>)
    ensures
        match consumed(buf@) {
            Some(c) => r == Some(c as u64) && c <= u64::MAX,
            None => r is None,
        },
{
    let len = buf.len();
    let mut pos: usize = 0;
    let mut last: u64 = 0;
    while pos <= len && len - pos >= DIRENT_FIXED_SIZE
        invariant
            len == buf@.len(),
            pos <= len,
            consumed(buf@) == scan_from(buf@, pos as nat, last as nat),
        decreases len - pos,
    {
        let reclen = read_le(buf, pos + 16, 2);
        let off = read_le(buf, pos + 8, 8);
        if reclen == 0 {
            return Some(last);
        }
        if reclen < DIRENT_FIXED_SIZE as u64 || reclen > (len - pos) as u64 {
            return None;
        }
        if pos == 0 {
            if off < reclen {
                return None;
            }
        } else if last > u64::MAX - reclen || off != last + reclen {
            return None;
        }
        pos = pos + reclen as usize;
        last = off;
    }
    Some(last)
}

/// The entry at which the stream offset `c` falls between two records.
pub fn resume_index(es: &Vec<DirEntryInfo>, c: u64) -> (r: Option<usize>)
    requires
        listing_fits_spec(es@),
    ensures
        match index_from(es@, 0, c as nat) {
            Some(k) => r == Some(k as usize) && k <= es@.len(),
            None => r is None,
        },
{
    let mut k: usize = 0;
    let mut acc: u64 = 0;
    loop
        invariant
            k <= es@.len(),
            acc == stream_prefix(es@, k as nat),
            listing_fits_spec(es@),
            index_from(es@, 0, c as nat) == index_from(es@, k as nat, c as nat),
        decreases es@.len() - k,
    {
        if acc == c {
            return Some(k);
        }
        if k >= es.len() || acc > c {
            return None;
        }
        proof {
            lemma_prefix_monotone(es@, (k + 1) as nat, es@.len());
        }
        acc = acc + (es[k].name.len() + 20) as u64;
        k = k + 1;
    }
}

proof fn lemma_overwrite_append(s: Seq<u8>, w: Seq<u8>, x: Seq<u8>)
    requires
        w.len() + x.len() <= s.len(),
    ensures
        overwrite(overwrite(s, 0, w), w.len() as int, x) == overwrite(s, 0, w + x),
{
    assert(overwrite(overwrite(s, 0, w), w.len() as int, x) =~= overwrite(s, 0, w + x));
}

/// `name` followed by a NUL byte.
fn name_with_nul(name: &Vec<u8>) -> (r: Vec<u8>)
    ensures
        r@ == name@.push(0),
{
    let mut out: Vec<u8> = Vec::new();
    let mut i: usize = 0;
    while i < name.len()
        invariant
            i <= name@.len(),
            out@ == name@.subrange(0, i as int),
        decreases name@.len() - i,
    {
        out.push(name[i]);
        i = i + 1;
        assert(out@ =~= name@.subrange(0, i as int));
    }
    out.push(0);
    assert(out@ =~= name@.push(0));
    out
}

/// Writes, from the start of `buf`, the records of the entries from `k` on
/// that fit whole, then an end marker where any was written and a header
/// still fits. Returns the bytes of records written.
pub fn fill_records(buf: &mut Vec<u8>, es: &Vec<DirEntryInfo>, k: usize) -> (r: usize)
    requires
        listing_fits_spec(es@),
        k <= es@.len(),
    ensures
        final(buf)@ == filled(old(buf)@, es@, k as nat),
        r == written_len(old(buf)@.len(), es@, k as nat),
        r <= old(buf)@.len(),
{
    let ghost orig = buf@;
    let ghost len = buf@.len();
    let mut tmp: Vec<u8> = Vec::new();
    std::mem::swap(buf, &mut tmp);
    let mut buffer = DirBuffer::new(tmp);
    proof {
        lemma_prefix_monotone(es@, k as nat, es@.len());
    }
    let mut j: usize = k;
    let mut total: usize = 0;
    let mut current: u64 = prefix_of(es, k);
    let mut done = false;
    while !done && j < es.len()
        invariant
            listing_fits_spec(es@),
            buffer.wf(),
            buffer.buf@.len() == len,
            orig.len() == len,
            buffer.offset == total,
            k <= j <= es@.len(),
            total == stream_prefix(es@, j as nat) - stream_prefix(es@, k as nat),
            current == stream_prefix(es@, j as nat),
            current <= i64::MAX,
            records(es@, k as nat, j as nat).len() == total,
            buffer.buf@ == overwrite(orig, 0, records(es@, k as nat, j as nat)),
            done ==> fit_count(es@, j as nat, (len - total) as nat) == 0,
            (j - k) + fit_count(es@, j as nat, (len - total) as nat) == fit_count(
                es@,
                k as nat,
                len,
            ),
        decreases es@.len() - j + (if done { 0int } else { 1int }),
    {
        let nm = name_with_nul(&es[j].name);
        proof {
            assert(rec_len(es@[j as int]) <= u16::MAX);
            lemma_prefix_monotone(es@, (j + 1) as nat, es@.len());
        }
        let size = DIRENT_FIXED_SIZE + nm.len();
        let next = current + size as u64;
        let d = DirEnt::new(1, next as i64, size, es[j].file_type);
        proof {
            assert(d == entry_header(es@, j as nat));
        }
        let ghost before = buffer.buf@;
        let res = buffer.write_entry(d, nm.as_slice());
        match res {
            Err(_) => {
                done = true;
            },
            Ok(_) => {
                proof {
                    lemma_header_len(d);
                    assert(entry_record(es@, j as nat) == record_bytes(d, nm@));
                    assert(entry_record(es@, j as nat).len() == size);
                    assert(buffer.buf@ == overwrite(before, total as int, entry_record(es@, j as nat)));
                    lemma_overwrite_append(
                        orig,
                        records(es@, k as nat, j as nat),
                        entry_record(es@, j as nat),
                    );
                    lemma_records_len(es@, k as nat, (j + 1) as nat);
                }
                total = total + size;
                current = next;
                j = j + 1;
            },
        }
    }
    proof {
        lemma_records_len(es@, k as nat, j as nat);
    }
    if total > 0 && buffer.can_fit_entry(DIRENT_FIXED_SIZE) {
        let t = DirEnt::new(1, current as i64, 0, FileType::Reg);
        let empty: Vec<u8> = Vec::new();
        let _ = buffer.write_entry(t, empty.as_slice());
        proof {
            assert(record_bytes(t, empty@) =~= header_bytes(t));
            assert(t == terminal_header(stream_prefix(es@, j as nat)));
        }
    }
    std::mem::swap(buf, &mut buffer.buf);
    total
}

/// Stream offset at which entry `k` begins.
fn prefix_of(es: &Vec<DirEntryInfo>, k: usize) -> (r: u64)
    requires
        listing_fits_spec(es@),
        k <= es@.len(),
    ensures
        r == stream_prefix(es@, k as nat),
{
    let mut j: usize = 0;
    let mut acc: u64 = 0;
    while j < k
        invariant
            j <= k <= es@.len(),
            listing_fits_spec(es@),
            acc == stream_prefix(es@, j as nat),
        decreases k - j,
    {
        proof {
            lemma_prefix_monotone(es@, (j + 1) as nat, es@.len());
        }
        acc = acc + (es[j].name.len() + 20) as u64;
        j = j + 1;
    }
    acc
}

/// Fills `buf` with the next records of a directory whose entries the
/// backend listed as `listing` (`None` where it could not be listed).
///
/// The records that `buf` already holds tell how far an earlier call got:
/// the listing resumes after them. Returns the bytes of new records written
/// from the start of `buf`; `-1` for a buffer shorter than one header;
/// `-EINVAL` where the records in `buf` are inconsistent or end between two
/// entries of the listing; `-ENOENT` where there is no listing.
pub fn getdents64(buf: &mut Vec<u8>, listing: Option<Vec<DirEntryInfo>>) -> (r: isize)
    requires
        old(buf)@.len() <= isize::MAX,
        match listing {
            Some(es) => listing_fits_spec(es@),
            None => true,
        },
    ensures
        (final(buf)@, r as int) == getdents64_spec(old(buf)@, listing_view(listing)),
        final(buf)@.len() == old(buf)@.len(),
        r <= old(buf)@.len(),
{
    proof {
        lemma_filled_len(old(buf)@, listing_view(listing));
    }
    if buf.len() < DIRENT_FIXED_SIZE {
        return -1;
    }
    let c = match prior_offset(buf) {
        Some(c) => c,
        None => return -(LinuxError::EINVAL.code() as isize),
    };
    let es = match listing {
        Some(es) => es,
        None => return -(LinuxError::ENOENT.code() as isize),
    };
    let k = match resume_index(&es, c) {
        Some(k) => k,
        None => return -(LinuxError::EINVAL.code() as isize),
    };
    let n = fill_records(buf, &es, k);
    n as isize
}

/// A call leaves the buffer's length as it was.
proof fn lemma_filled_len(buf: Seq<u8>, listing: Option<Seq<DirEntryInfo>>)
    requires
        match listing {
            Some(es) => listing_fits_spec(es),
            None => true,
        },
    ensures
        getdents64_spec(buf, listing).0.len() == buf.len(),
{
    if buf.len() >= DIRENT_FIXED_SIZE && consumed(buf) is Some && listing is Some {
        let es = listing->0;
        let c = consumed(buf)->0;
        if index_from(es, 0, c) is Some {
            let k = index_from(es, 0, c)->0;
            lemma_index_from_bound(es, 0, c);
            lemma_fit_count_fits(es, k, buf.len());
            let n = fit_count(es, k, buf.len());
            lemma_records_len(es, k, k + n);
            lemma_header_len(terminal_header(stream_prefix(es, k + n)));
        }
    }
}

proof fn lemma_index_from_bound(es: Seq<DirEntryInfo>, k: nat, c: nat)
    requires
        k <= es.len(),
    ensures
        index_from(es, k, c) matches Some(j) ==> k <= j <= es.len(),
    decreases es.len() - k,
{
    if stream_prefix(es, k) != c && k < es.len() && stream_prefix(es, k) <= c {
        lemma_index_from_bound(es, k + 1, c);
    }
}

/// The entries that `fit_count` counts take no more than the space given.
pub proof fn lemma_fit_count_fits(es: Seq<DirEntryInfo>, k: nat, space: nat)
    requires
        k <= es.len(),
    ensures
        k + fit_count(es, k, space) <= es.len(),
        stream_prefix(es, k + fit_count(es, k, space)) - stream_prefix(es, k) <= space,
    decreases es.len() - k,
{
    if k < es.len() && rec_len(es[k as int]) <= space {
        lemma_fit_count_fits(es, k + 1, (space - rec_len(es[k as int])) as nat);
        lemma_prefix_monotone(es, k + 1, k + fit_count(es, k, space));
    }
}

/// The offset and length fields of a record read back as written.
proof fn lemma_header_fields(h: DirEnt, name: Seq<u8>)
    ensures
        field(record_bytes(h, name), 8, 8) == (h.d_off as u64) as nat,
        field(record_bytes(h, name), 16, 2) == h.d_reclen as nat,
        record_bytes(h, name).len() == DIRENT_FIXED_SIZE + name.len(),
{
    let b = record_bytes(h, name);
    lemma_header_len(h);
    crate::codec::lemma_radix_values();
    crate::codec::lemma_le_round_trip(h.d_ino as nat, 8);
    crate::codec::lemma_le_round_trip((h.d_off as u64) as nat, 8);
    crate::codec::lemma_le_round_trip(h.d_reclen as nat, 2);
    assert(b.subrange(8, 16) =~= crate::codec::le_bytes((h.d_off as u64) as nat, 8));
    assert(b.subrange(16, 18) =~= crate::codec::le_bytes(h.d_reclen as nat, 2));
}

/// A field read inside a part of a buffer reads the same in the whole.
proof fn lemma_field_within(b: Seq<u8>, start: nat, part: Seq<u8>, pos: nat, n: nat)
    requires
        start + part.len() <= b.len(),
        b.subrange(start as int, (start + part.len()) as int) == part,
        pos + n <= part.len(),
    ensures
        field(b, start + pos, n) == field(part, pos, n),
{
    assert(b.subrange((start + pos) as int, (start + pos + n) as int) =~= part.subrange(
        pos as int,
        (pos + n) as int,
    ));
}

/// Entry `j`'s record stands in `records(es, from, to)` where the entries
/// before it end.
proof fn lemma_record_at(es: Seq<DirEntryInfo>, from: nat, to: nat, j: nat)
    requires
        from <= j < to <= es.len(),
    ensures
        ({
            let start = stream_prefix(es, j) - stream_prefix(es, from);
            let r = records(es, from, to);
            &&& start + rec_len(es[j as int]) <= r.len()
            &&& r.subrange(start, start + rec_len(es[j as int])) == entry_record(es, j)
        }),
    decreases to,
{
    let start = stream_prefix(es, j) - stream_prefix(es, from);
    let e = entry_record(es, (to - 1) as nat);
    let front = records(es, from, (to - 1) as nat);
    lemma_records_len(es, from, to);
    lemma_records_len(es, from, (to - 1) as nat);
    lemma_prefix_monotone(es, from, j);
    lemma_header_len(entry_header(es, (to - 1) as nat));
    lemma_header_len(entry_header(es, j));
    if j == to - 1 {
        assert(records(es, from, to).subrange(start, start + rec_len(es[j as int])) =~= e);
    } else {
        lemma_record_at(es, from, (to - 1) as nat, j);
        lemma_prefix_monotone(es, j + 1, (to - 1) as nat);
        assert(records(es, from, to).subrange(start, start + rec_len(es[j as int])) =~= front.subrange(
            start,
            start + rec_len(es[j as int]),
        ));
    }
}

/// A filled buffer keeps its length and starts with the records written.
proof fn lemma_filled_shape(buf: Seq<u8>, es: Seq<DirEntryInfo>, k: nat)
    requires
        k <= es.len(),
    ensures
        ({
            let n = fit_count(es, k, buf.len());
            let w = records(es, k, k + n);
            let out = filled(buf, es, k);
            &&& w.len() == stream_prefix(es, k + n) - stream_prefix(es, k)
            &&& w.len() <= buf.len()
            &&& out.len() == buf.len()
            &&& out.subrange(0, w.len() as int) == w
        }),
{
    let n = fit_count(es, k, buf.len());
    let w = records(es, k, k + n);
    lemma_fit_count_fits(es, k, buf.len());
    lemma_records_len(es, k, k + n);
    lemma_header_len(terminal_header(stream_prefix(es, k + n)));
    assert(filled(buf, es, k).subrange(0, w.len() as int) =~= w);
}

/// Where a call that resumed at entry `k` wrote the record of entry `k + i`:
/// its `d_off` field holds the total length of the records of all entries
/// up to and including it, its length field its own length, its type byte
/// the entry's file type tag, and the entry's name with its NUL follows.
pub proof fn lemma_offset_invariant(buf: Seq<u8>, es: Seq<DirEntryInfo>, k: nat, i: nat)
    requires
        listing_fits_spec(es),
        k <= es.len(),
        i < fit_count(es, k, buf.len()),
    ensures
        ({
            let pos = (stream_prefix(es, k + i) - stream_prefix(es, k)) as nat;
            let out = filled(buf, es, k);
            &&& field(out, pos + 8, 8) == stream_prefix(es, k + i + 1)
            &&& stream_prefix(es, k + i + 1) == stream_prefix(es, k + i) + rec_len(es[(k + i) as int])
            &&& field(out, pos + 16, 2) == rec_len(es[(k + i) as int])
            &&& out[(pos + 18) as int] == es[(k + i) as int].file_type.spec_tag()
            &&& out.subrange((pos + 19) as int, (pos + rec_len(es[(k + i) as int])) as int) == es[(k
                + i) as int].name@.push(0)
        }),
{
    let n = fit_count(es, k, buf.len());
    let j = k + i;
    let pos = (stream_prefix(es, j) - stream_prefix(es, k)) as nat;
    let w = records(es, k, k + n);
    lemma_fit_count_fits(es, k, buf.len());
    lemma_records_len(es, k, k + n);
    lemma_record_at(es, k, k + n, j);
    lemma_prefix_monotone(es, j + 1, es.len());
    let out = filled(buf, es, k);
    let rec = entry_record(es, j);
    lemma_header_fields(entry_header(es, j), es[j as int].name@.push(0));
    lemma_filled_shape(buf, es, k);
    lemma_prefix_monotone(es, k, j);
    assert(rec.len() == rec_len(es[j as int]));
    assert(pos + rec.len() <= w.len());
    assert(out.subrange(pos as int, (pos + rec.len()) as int) =~= w.subrange(
        pos as int,
        (pos + rec.len()) as int,
    ));
    lemma_field_within(out, pos, rec, 8, 8);
    lemma_field_within(out, pos, rec, 16, 2);
    let h = entry_header(es, j);
    lemma_header_len(h);
    assert(rec[18] == h.d_type);
    assert(out[(pos + 18) as int] == out.subrange(pos as int, (pos + rec.len()) as int)[18]);
    assert(rec.subrange(19, rec.len() as int) =~= es[j as int].name@.push(0));
    assert(out.subrange((pos + 19) as int, (pos + rec.len()) as int) =~= rec.subrange(19, rec.len() as int));
}

proof fn lemma_prefix_strict(es: Seq<DirEntryInfo>, a: nat, b: nat)
    requires
        a < b <= es.len(),
    ensures
        stream_prefix(es, a) + 20 <= stream_prefix(es, b),
    decreases b,
{
    lemma_prefix_monotone(es, a, (b - 1) as nat);
}

/// Where the listing holds an entry boundary at `m`, the search from any
/// earlier entry finds it.
proof fn lemma_index_at(es: Seq<DirEntryInfo>, j: nat, m: nat)
    requires
        j <= m <= es.len(),
    ensures
        index_from(es, j, stream_prefix(es, m)) == Some(m),
    decreases m - j,
{
    if j < m {
        lemma_prefix_strict(es, j, m);
        lemma_index_at(es, j + 1, m);
    }
}

/// Scanning a filled buffer where its records end stops there.
proof fn lemma_scan_end(buf: Seq<u8>, es: Seq<DirEntryInfo>, k: nat)
    requires
        listing_fits_spec(es),
        k <= es.len(),
        0 < fit_count(es, k, buf.len()),
    ensures
        ({
            let n = fit_count(es, k, buf.len());
            let w = records(es, k, k + n);
            scan_from(filled(buf, es, k), w.len(), stream_prefix(es, k + n)) == Some(
                stream_prefix(es, k + n),
            )
        }),
{
    let n = fit_count(es, k, buf.len());
    let w = records(es, k, k + n);
    let out = filled(buf, es, k);
    lemma_filled_shape(buf, es, k);
    lemma_fit_count_fits(es, k, buf.len());
    lemma_prefix_strict(es, k, k + n);
    if out.len() - w.len() >= DIRENT_FIXED_SIZE {
        let t = terminal_header(stream_prefix(es, k + n));
        lemma_header_fields(t, seq![]);
        assert(out.subrange(w.len() as int, w.len() + DIRENT_FIXED_SIZE) =~= record_bytes(
            t,
            seq![],
        ));
        lemma_field_within(out, w.len(), record_bytes(t, seq![]), 16, 2);
    }
}

/// One step of the scan of a filled buffer: the record of entry `k + i`
/// is consistent, and the scan goes on where it ends.
proof fn lemma_scan_step(buf: Seq<u8>, es: Seq<DirEntryInfo>, k: nat, i: nat, last: nat)
    requires
        listing_fits_spec(es),
        k <= es.len(),
        i < fit_count(es, k, buf.len()),
        i > 0 ==> last == stream_prefix(es, k + i),
    ensures
        scan_from(
            filled(buf, es, k),
            (stream_prefix(es, k + i) - stream_prefix(es, k)) as nat,
            last,
        ) == scan_from(
            filled(buf, es, k),
            (stream_prefix(es, k + i + 1) - stream_prefix(es, k)) as nat,
            stream_prefix(es, k + i + 1),
        ),
{
    let n = fit_count(es, k, buf.len());
    let j = k + i;
    lemma_filled_shape(buf, es, k);
    lemma_fit_count_fits(es, k, buf.len());
    lemma_prefix_monotone(es, k, j);
    lemma_offset_invariant(buf, es, k, i);
    lemma_prefix_monotone(es, j + 1, k + n);
    if i > 0 {
        lemma_prefix_strict(es, k, j);
    }
    assert(rec_len(es[j as int]) <= u16::MAX);
}

/// Scanning a filled buffer from the record of entry `k + i` on reaches the
/// end of the last record written.
proof fn lemma_scan_filled(buf: Seq<u8>, es: Seq<DirEntryInfo>, k: nat, i: nat, last: nat)
    requires
        listing_fits_spec(es),
        k <= es.len(),
        0 < fit_count(es, k, buf.len()),
        i <= fit_count(es, k, buf.len()),
        i > 0 ==> last == stream_prefix(es, k + i),
    ensures
        scan_from(
            filled(buf, es, k),
            (stream_prefix(es, k + i) - stream_prefix(es, k)) as nat,
            last,
        ) == Some(stream_prefix(es, k + fit_count(es, k, buf.len()))),
    decreases fit_count(es, k, buf.len()) - i,
{
    let n = fit_count(es, k, buf.len());
    if i == n {
        lemma_filled_shape(buf, es, k);
        lemma_scan_end(buf, es, k);
    } else {
        lemma_scan_step(buf, es, k, i, last);
        lemma_scan_filled(buf, es, k, i + 1, stream_prefix(es, k + i + 1));
    }
}

/// A call that wrote records leaves the buffer so that the next call
/// resumes with the entry after the last one written.
pub proof fn lemma_resume(buf: Seq<u8>, es: Seq<DirEntryInfo>, k: nat)
    requires
        listing_fits_spec(es),
        k <= es.len(),
        0 < fit_count(es, k, buf.len()),
    ensures
        consumed(filled(buf, es, k)) == Some(stream_prefix(es, k + fit_count(es, k, buf.len()))),
        index_from(es, 0, stream_prefix(es, k + fit_count(es, k, buf.len()))) == Some(
            k + fit_count(es, k, buf.len()),
        ),
{
    lemma_scan_filled(buf, es, k, 0, 0);
    lemma_fit_count_fits(es, k, buf.len());
    lemma_index_at(es, 0, k + fit_count(es, k, buf.len()));
}

/// The names of entries `from .. to`, in order.
pub open spec fn entry_names(es: Seq<DirEntryInfo>, from: nat, to: nat) -> Seq<Seq<u8>> {
    es.subrange(from as int, to as int).map_values(|e: DirEntryInfo| e.name@)
}

/// The names that `calls` successive calls of `getdents64` on one buffer
/// list, stopping at the first call that writes no record.
pub open spec fn names_over_calls(buf: Seq<u8>, es: Seq<DirEntryInfo>, calls: nat) -> Seq<
    Seq<u8>,
>
    decreases calls,
{
    if calls == 0 {
        seq![]
    } else {
        let (out, r) = getdents64_spec(buf, Some(es));
        if r <= 0 {
            seq![]
        } else {
            let k = index_from(es, 0, consumed(buf)->0)->0;
            let n = fit_count(es, k, buf.len());
            entry_names(es, k, k + n) + names_over_calls(out, es, (calls - 1) as nat)
        }
    }
}

/// Whether every record of the listing fits in `len` bytes.
pub open spec fn holds_any_record(es: Seq<DirEntryInfo>, len: nat) -> bool {
    forall|i: int| 0 <= i < es.len() ==> rec_len(#[trigger] es[i]) <= len
}

proof fn lemma_fit_all(es: Seq<DirEntryInfo>, j: nat, space: nat)
    requires
        j <= es.len(),
        stream_prefix(es, es.len()) - stream_prefix(es, j) <= space,
    ensures
        fit_count(es, j, space) == es.len() - j,
    decreases es.len() - j,
{
    if j < es.len() {
        lemma_prefix_monotone(es, j + 1, es.len());
        lemma_fit_all(es, j + 1, (space - rec_len(es[j as int])) as nat);
    }
}

proof fn lemma_calls_from(buf: Seq<u8>, es: Seq<DirEntryInfo>, k: nat, calls: nat)
    requires
        listing_fits_spec(es),
        k <= es.len(),
        calls >= es.len() - k,
        buf.len() >= DIRENT_FIXED_SIZE,
        holds_any_record(es, buf.len()),
        consumed(buf) == Some(stream_prefix(es, k)),
    ensures
        names_over_calls(buf, es, calls) == entry_names(es, k, es.len()),
    decreases calls,
{
    lemma_index_at(es, 0, k);
    let n = fit_count(es, k, buf.len());
    lemma_fit_count_fits(es, k, buf.len());
    lemma_records_len(es, k, k + n);
    if k == es.len() {
        assert(entry_names(es, k, es.len()) =~= seq![]);
    } else {
        assert(rec_len(es[k as int]) <= buf.len());
        assert(n >= 1);
        lemma_prefix_strict(es, k, k + n);
        lemma_resume(buf, es, k);
        lemma_filled_shape(buf, es, k);
        lemma_calls_from(filled(buf, es, k), es, k + n, (calls - 1) as nat);
        assert(entry_names(es, k, k + n) + entry_names(es, k + n, es.len()) =~= entry_names(
            es,
            k,
            es.len(),
        ));
    }
}

/// Round trip: listing a directory by repeated calls on a buffer that can
/// hold any one record yields the names of all entries once each, in the
/// listing's order, the same as one call on a buffer that holds them all.
/// Both buffers start with no records in them.
pub proof fn lemma_round_trip(small: Seq<u8>, large: Seq<u8>, es: Seq<DirEntryInfo>)
    requires
        listing_fits_spec(es),
        small.len() >= DIRENT_FIXED_SIZE,
        holds_any_record(es, small.len()),
        consumed(small) == Some(0nat),
        large.len() >= DIRENT_FIXED_SIZE,
        large.len() >= stream_prefix(es, es.len()),
        consumed(large) == Some(0nat),
    ensures
        names_over_calls(small, es, es.len() + 1) == entry_names(es, 0, es.len()),
        names_over_calls(large, es, 1) == entry_names(es, 0, es.len()),
{
    lemma_calls_from(small, es, 0, es.len() + 1);
    assert forall|i: int| 0 <= i < es.len() implies rec_len(#[trigger] es[i]) <= large.len() by {
        lemma_prefix_monotone(es, (i + 1) as nat, es.len());
        lemma_prefix_monotone(es, 0, i as nat);
    }
    lemma_calls_from(large, es, 0, 1 + es.len());
    lemma_fit_all(es, 0, large.len());
    lemma_index_at(es, 0, 0);
    if es.len() > 0 {
        lemma_resume(large, es, 0);
        lemma_filled_shape(large, es, 0);
        lemma_prefix_strict(es, 0, es.len());
        lemma_records_len(es, 0, es.len());
        assert(entry_names(es, es.len(), es.len()) =~= seq![]);
        lemma_calls_from(filled(large, es, 0), es, es.len(), 0);
        assert(entry_names(es, 0, es.len()) + seq![] =~= entry_names(es, 0, es.len()));
    } else {
        assert(entry_names(es, 0, 0) =~= seq![]);
    }
}

/// One call on a buffer with no records in it that is large enough for the
/// whole listing writes one record per entry and no other: the record of
/// entry `i` starts where the entries before it end and holds that entry's
/// type tag and name. So a directory created in the backend shows up with
/// its name and type, and one removed from it does not show up at all.
pub proof fn lemma_lists_every_entry(buf: Seq<u8>, es: Seq<DirEntryInfo>)
    requires
        listing_fits_spec(es),
        buf.len() >= DIRENT_FIXED_SIZE,
        buf.len() >= stream_prefix(es, es.len()),
        consumed(buf) == Some(0nat),
    ensures
        ({
            let (out, r) = getdents64_spec(buf, Some(es));
            &&& r == stream_prefix(es, es.len())
            &&& out.subrange(0, r) == records(es, 0, es.len())
            &&& forall|i: nat|
                i < es.len() ==> {
                    let pos = stream_prefix(es, i) as int;
                    &&& out[pos + 18] == (#[trigger] es[i as int]).file_type.spec_tag()
                    &&& out.subrange(pos + 19, pos + rec_len(es[i as int])) == es[i as int].name@.push(0)
                }
        }),
{
    lemma_index_at(es, 0, 0);
    lemma_fit_all(es, 0, buf.len());
    lemma_filled_shape(buf, es, 0);
    assert forall|i: nat| i < es.len() implies {
        let out = filled(buf, es, 0);
        let pos = stream_prefix(es, i) as int;
        &&& out[pos + 18] == (#[trigger] es[i as int]).file_type.spec_tag()
        &&& out.subrange(pos + 19, pos + rec_len(es[i as int])) == es[i as int].name@.push(0)
    } by {
        lemma_offset_invariant(buf, es, 0, i);
    }
}

/// A buffer of zero bytes holds no records.
pub proof fn lemma_zeroed_buffer(len: nat)
    requires
        len >= DIRENT_FIXED_SIZE,
    ensures
        consumed(Seq::new(len, |i: int| 0u8)) == Some(0nat),
{
    let b = Seq::new(len, |i: int| 0u8);
    let f = b.subrange(16, 18);
    assert(f.drop_first().drop_first() =~= seq![]);
    reveal_with_fuel(le_value, 3);
}

pub open spec fn listing_view(listing: Option<Vec<DirEntryInfo>>) -> Option<Seq<DirEntryInfo>> {
    match listing {
        Some(v) => Some(v@),
        None => None,
    }
}

} // verus!
