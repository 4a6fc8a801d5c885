//! The `linux_dirent64` record that `getdents64` hands to user programs, and
//! the cursor that packs such records into a caller's buffer.

use crate::codec::{le_bytes, push_le};
use vstd::prelude::*;

verus! {

/// Size of a record's fixed header: inode (8 bytes), offset of the next
/// record (8), record length (2) and file type (1).
pub const DIRENT_FIXED_SIZE: usize = 19;

/// File type tag of a directory entry, as `d_type` encodes it.
#[derive(Debug, Clone, Copy, PartialEq, Eq, Structural)]
pub enum FileType {
    Unknown,
    Fifo,
    Chr,
    Dir,
    Blk,
    Reg,
    Lnk,
    Socket,
    Wht,
}

/// Kind of a node as the file-system backend reports it.
#[derive(Debug, Clone, Copy, PartialEq, Eq, Structural)]
pub enum NodeType {
    Fifo,
    CharDevice,
    Dir,
    BlockDevice,
    File,
    SymLink,
    Socket,
}

impl FileType {
    /// The numeric `d_type` value of this tag.
    pub open spec fn spec_tag(self) -> u8 {
        match self {
            FileType::Unknown => 0,
            FileType::Fifo => 1,
            FileType::Chr => 2,
            FileType::Dir => 4,
            FileType::Blk => 6,
            FileType::Reg => 8,
            FileType::Lnk => 10,
            FileType::Socket => 12,
            FileType::Wht => 14,
        }
    }

    pub fn tag(self) -> (r: u8)
        ensures
            r == self.spec_tag(),
    {
        match self {
            FileType::Unknown => 0,
            FileType::Fifo => 1,
            FileType::Chr => 2,
            FileType::Dir => 4,
            FileType::Blk => 6,
            FileType::Reg => 8,
            FileType::Lnk => 10,
            FileType::Socket => 12,
            FileType::Wht => 14,
        }
    }

    /// Directories and regular files keep their kind; every other node is
    /// reported as unknown.
    pub open spec fn spec_from_node(t: NodeType) -> FileType {
        match t {
            NodeType::Dir => FileType::Dir,
            NodeType::File => FileType::Reg,
            _ => FileType::Unknown,
        }
    }
}

impl From<NodeType> for FileType {
    fn from(t: NodeType) -> (r: FileType)
        ensures
            r == FileType::spec_from_node(t),
    {
        match t {
            NodeType::Dir => FileType::Dir,
            NodeType::File => FileType::Reg,
            _ => FileType::Unknown,
        }
    }
}

impl vstd::std_specs::convert::FromSpecImpl<NodeType> for FileType {
    open spec fn obeys_from_spec() -> bool {
        true
    }

    open spec fn from_spec(t: NodeType) -> FileType {
        FileType::spec_from_node(t)
    }
}

/// Fixed header of a directory record.
#[derive(Debug, Clone, Copy)]
pub struct DirEnt {
    pub d_ino: u64,
    /// Offset, in the whole listing, at which the next record begins.
    pub d_off: i64,
    pub d_reclen: u16,
    pub d_type: u8,
}

/// The header bytes of `e`: inode, next offset, record length, type tag.
pub open spec fn header_bytes(e: DirEnt) -> Seq<u8> {
    le_bytes(e.d_ino as nat, 8) + le_bytes((e.d_off as u64) as nat, 8) + le_bytes(
        e.d_reclen as nat,
        2,
    ) + seq![e.d_type]
}

/// A whole record: the header followed at once by the name bytes.
pub open spec fn record_bytes(e: DirEnt, name: Seq<u8>) -> Seq<u8> {
    header_bytes(e) + name
}

/// `s` with the bytes from `pos` on replaced by `t`.
pub open spec fn overwrite(s: Seq<u8>, pos: int, t: Seq<u8>) -> Seq<u8> {
    s.subrange(0, pos) + t + s.subrange(pos + t.len(), s.len() as int)
}

pub proof fn lemma_header_len(e: DirEnt)
    ensures
        header_bytes(e).len() == DIRENT_FIXED_SIZE,
{
    crate::codec::lemma_le_bytes_len(e.d_ino as nat, 8);
    crate::codec::lemma_le_bytes_len((e.d_off as u64) as nat, 8);
    crate::codec::lemma_le_bytes_len(e.d_reclen as nat, 2);
}

impl DirEnt {
    pub fn new(ino: u64, off: i64, reclen: usize, file_type: FileType) -> (r: DirEnt)
        requires
            reclen <= u16::MAX,
        ensures
            r.d_ino == ino,
            r.d_off == off,
            r.d_reclen == reclen,
            r.d_type == file_type.spec_tag(),
    {
        DirEnt { d_ino: ino, d_off: off, d_reclen: reclen as u16, d_type: file_type.tag() }
    }

    /// The record bytes of this header followed by `name`.
    pub fn encode(&self, name: &[u8]) -> (r: Vec<u8>)
        ensures
            r@ == record_bytes(*self, name@),
    {
        let mut out: Vec<u8> = Vec::new();
        push_le(&mut out, self.d_ino, 8);
        push_le(&mut out, self.d_off as u64, 8);
        push_le(&mut out, self.d_reclen as u64, 2);
        out.push(self.d_type);
        let mut i: usize = 0;
        while i < name.len()
            invariant
                i <= name@.len(),
                out@ == header_bytes(*self) + name@.subrange(0, i as int),
            decreases name@.len() - i,
        {
            out.push(name[i]);
            i = i + 1;
            assert(out@ =~= header_bytes(*self) + name@.subrange(0, i as int));
        }
        assert(name@.subrange(0, name@.len() as int) =~= name@);
        out
    }
}

/// A cursor over a caller's output buffer: records go in at `offset`.
pub struct DirBuffer {
    pub buf: Vec<u8>,
    pub offset: usize,
}

impl DirBuffer {
    pub open spec fn wf(&self) -> bool {
        self.offset <= self.buf@.len()
    }

    pub open spec fn spec_remaining(&self) -> nat {
        if self.offset <= self.buf@.len() {
            (self.buf@.len() - self.offset) as nat
        } else {
            0
        }
    }

    pub fn new(buf: Vec<u8>) -> (r: DirBuffer)
        ensures
            r.wf(),
            r.buf@ == buf@,
            r.offset == 0,
    {
        DirBuffer { buf, offset: 0 }
    }

    pub fn remaining_space(&self) -> (r: usize)
        ensures
            r == self.spec_remaining(),
    {
        self.buf.len().saturating_sub(self.offset)
    }

    pub fn can_fit_entry(&self, entry_size: usize) -> (r: bool)
        ensures
            r == (self.spec_remaining() >= entry_size),
    {
        self.remaining_space() >= entry_size
    }

    /// Writes the record `dirent` + `name` at the cursor and moves the cursor
    /// by the record length. A record that does not fit whole is not written.
    pub fn write_entry(&mut self, dirent: DirEnt, name: &[u8]) -> (r: Result<(), ()>)
        requires
            old(self).wf(),
        ensures
            final(self).wf(),
            r is Ok <==> old(self).spec_remaining() >= DIRENT_FIXED_SIZE + name@.len()
                && old(self).spec_remaining() >= dirent.d_reclen,
            r is Ok ==> final(self).buf@ == overwrite(
                old(self).buf@,
                old(self).offset as int,
                record_bytes(dirent, name@),
            ) && final(self).offset == old(self).offset + dirent.d_reclen,
            r is Err ==> *final(self) == *old(self),
    {
        let room = self.remaining_space();
        if room < name.len() || room - name.len() < DIRENT_FIXED_SIZE || !self.can_fit_entry(
            dirent.d_reclen as usize,
        ) {
            return Err(());
        }
        let rec = dirent.encode(name);
        proof {
            lemma_header_len(dirent);
        }
        let start = self.offset;
        let ghost before = self.buf@;
        let blen = self.buf.len();
        let mut i: usize = 0;
        while i < rec.len()
            invariant
                rec@ == record_bytes(dirent, name@),
                rec@.len() <= before.len() - start,
                start <= before.len(),
                before.len() == blen,
                i <= rec@.len(),
                self.offset == start,
                self.buf@ == overwrite(before, start as int, rec@.subrange(0, i as int)),
            decreases rec@.len() - i,
        {
            self.buf.set(start + i, rec[i]);
            i = i + 1;
            assert(self.buf@ =~= overwrite(before, start as int, rec@.subrange(0, i as int)));
        }
        assert(rec@.subrange(0, rec@.len() as int) =~= rec@);
        self.offset = start + dirent.d_reclen as usize;
        Ok(())
    }
}

} // verus!
