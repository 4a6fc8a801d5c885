use uspace_fs::dirent::{DirBuffer, DirEnt, FileType, NodeType, DIRENT_FIXED_SIZE};
use uspace_fs::getdents::{getdents64, listing_fits, DirEntryInfo};

fn entry(name: &str, file_type: FileType) -> DirEntryInfo {
    DirEntryInfo { name: name.as_bytes().to_vec(), file_type }
}

fn listing() -> Vec<DirEntryInfo> {
    vec![
        entry(".", FileType::Dir),
        entry("..", FileType::Dir),
        entry("hello.txt", FileType::Reg),
        entry("sub", FileType::Dir),
    ]
}

fn u64_at(b: &[u8], pos: usize) -> u64 {
    let mut v = [0u8; 8];
    v.copy_from_slice(&b[pos..pos + 8]);
    u64::from_le_bytes(v)
}

fn u16_at(b: &[u8], pos: usize) -> u16 {
    u16::from_le_bytes([b[pos], b[pos + 1]])
}

/// (name, type, d_off, reclen) of each record in the first `len` bytes.
fn parse(b: &[u8], len: usize) -> Vec<(String, u8, u64, u16)> {
    let mut out = Vec::new();
    let mut pos = 0;
    while pos < len {
        let reclen = u16_at(b, pos + 16);
        let off = u64_at(b, pos + 8);
        let ty = b[pos + 18];
        let name_end = b[pos + 19..].iter().position(|&c| c == 0).unwrap() + pos + 19;
        let name = String::from_utf8(b[pos + 19..name_end].to_vec()).unwrap();
        out.push((name, ty, off, reclen));
        pos += reclen as usize;
    }
    out
}

#[test]
fn one_call_lists_everything_with_cumulative_offsets() {
    let mut buf = vec![0u8; 512];
    let r = getdents64(&mut buf, Some(listing()));
    // records: 19 + 2, 19 + 3, 19 + 10, 19 + 4
    assert_eq!(r, 21 + 22 + 29 + 23);
    let recs = parse(&buf, r as usize);
    assert_eq!(
        recs,
        vec![
            (".".to_string(), 4, 21, 21),
            ("..".to_string(), 4, 43, 22),
            ("hello.txt".to_string(), 8, 72, 29),
            ("sub".to_string(), 4, 95, 23),
        ]
    );
    // end marker: length zero, offset of the end of the stream, inode 1
    assert_eq!(u16_at(&buf, 95 + 16), 0);
    assert_eq!(u64_at(&buf, 95 + 8), 95);
    assert_eq!(u64_at(&buf, 95), 1);
    assert_eq!(buf.len(), 512);
}

#[test]
fn small_buffer_resumes_across_calls() {
    let mut buf = vec![0u8; 40];
    let mut names = Vec::new();
    let mut offsets = Vec::new();
    for _ in 0..10 {
        let r = getdents64(&mut buf, Some(listing()));
        assert!(r >= 0);
        assert!(r as usize <= buf.len());
        if r == 0 {
            break;
        }
        for (name, _, off, _) in parse(&buf, r as usize) {
            names.push(name);
            offsets.push(off);
        }
    }
    assert_eq!(names, vec![".", "..", "hello.txt", "sub"]);
    assert_eq!(offsets, vec![21, 43, 72, 95]);
}

#[test]
fn round_trip_matches_one_large_call() {
    let mut large = vec![0u8; 4096];
    let r = getdents64(&mut large, Some(listing()));
    let all: Vec<String> = parse(&large, r as usize).into_iter().map(|e| e.0).collect();

    let mut small = vec![0u8; 29];
    let mut names = Vec::new();
    loop {
        let r = getdents64(&mut small, Some(listing()));
        if r <= 0 {
            break;
        }
        names.extend(parse(&small, r as usize).into_iter().map(|e| e.0));
    }
    assert_eq!(names, all);
}

#[test]
fn exact_fit_leaves_no_end_marker() {
    let mut buf = vec![0u8; 21];
    let r = getdents64(&mut buf, Some(vec![entry(".", FileType::Dir)]));
    assert_eq!(r, 21);
    assert_eq!(parse(&buf, 21), vec![(".".to_string(), 4, 21, 21)]);
}

#[test]
fn record_that_does_not_fit_is_not_written() {
    let mut buf = vec![0u8; 25];
    let r = getdents64(&mut buf, Some(vec![entry("a_long_name", FileType::Reg)]));
    assert_eq!(r, 0);
    assert_eq!(buf, vec![0u8; 25]);
}

#[test]
fn empty_directory_writes_nothing() {
    let mut buf = vec![0u8; 64];
    assert_eq!(getdents64(&mut buf, Some(Vec::new())), 0);
    assert_eq!(buf, vec![0u8; 64]);
}

#[test]
fn buffer_shorter_than_a_header_is_refused() {
    let mut buf = vec![0u8; DIRENT_FIXED_SIZE - 1];
    assert_eq!(getdents64(&mut buf, Some(listing())), -1);
}

#[test]
fn missing_listing_is_enoent() {
    let mut buf = vec![0u8; 64];
    assert_eq!(getdents64(&mut buf, None), -2);
}

#[test]
fn inconsistent_prior_records_are_einval() {
    let mut buf = vec![0u8; 64];
    // a record of length 5, shorter than a header
    buf[16] = 5;
    assert_eq!(getdents64(&mut buf, Some(listing())), -22);
    let mut buf = vec![0u8; 64];
    // a record of length 21 whose offset says 3
    buf[16] = 21;
    buf[8] = 3;
    assert_eq!(getdents64(&mut buf, Some(listing())), -22);
}

#[test]
fn prior_records_ending_between_entries_are_einval() {
    let mut buf = vec![0u8; 64];
    buf[16] = 30;
    buf[8] = 30;
    assert_eq!(getdents64(&mut buf, Some(listing())), -22);
}

#[test]
fn listing_fits_checks_record_lengths() {
    assert!(listing_fits(&listing()));
    let long = vec![DirEntryInfo { name: vec![b'x'; 70000], file_type: FileType::Reg }];
    assert!(!listing_fits(&long));
}

#[test]
fn file_type_tags() {
    assert_eq!(FileType::Unknown.tag(), 0);
    assert_eq!(FileType::Fifo.tag(), 1);
    assert_eq!(FileType::Chr.tag(), 2);
    assert_eq!(FileType::Dir.tag(), 4);
    assert_eq!(FileType::Blk.tag(), 6);
    assert_eq!(FileType::Reg.tag(), 8);
    assert_eq!(FileType::Lnk.tag(), 10);
    assert_eq!(FileType::Socket.tag(), 12);
    assert_eq!(FileType::Wht.tag(), 14);
}

#[test]
fn file_type_from_node_type() {
    assert_eq!(FileType::from(NodeType::Dir), FileType::Dir);
    assert_eq!(FileType::from(NodeType::File), FileType::Reg);
    assert_eq!(FileType::from(NodeType::SymLink), FileType::Unknown);
    assert_eq!(FileType::from(NodeType::Fifo), FileType::Unknown);
}

#[test]
fn dirent_new_and_encode() {
    let d = DirEnt::new(7, 300, 22, FileType::Lnk);
    assert_eq!((d.d_ino, d.d_off, d.d_reclen, d.d_type), (7, 300, 22, 10));
    let b = d.encode(b"ab\0");
    assert_eq!(b.len(), 22);
    assert_eq!(u64_at(&b, 0), 7);
    assert_eq!(u64_at(&b, 8), 300);
    assert_eq!(u16_at(&b, 16), 22);
    assert_eq!(b[18], 10);
    assert_eq!(&b[19..], b"ab\0");
}

#[test]
fn dir_buffer_rejects_a_record_that_overflows() {
    let mut db = DirBuffer::new(vec![0u8; 30]);
    assert_eq!(db.remaining_space(), 30);
    assert!(db.can_fit_entry(30));
    assert!(!db.can_fit_entry(31));
    assert_eq!(db.write_entry(DirEnt::new(1, 21, 21, FileType::Reg), b"a\0"), Ok(()));
    assert_eq!(db.offset, 21);
    assert_eq!(db.remaining_space(), 9);
    assert_eq!(db.write_entry(DirEnt::new(1, 42, 21, FileType::Reg), b"b\0"), Err(()));
    assert_eq!(db.offset, 21);
    assert_eq!(&db.buf[21..], &[0u8; 9]);
}

#[test]
fn stale_bytes_that_do_not_form_records_are_einval() {
    let mut buf = vec![0xffu8; 21];
    assert_eq!(getdents64(&mut buf, Some(vec![entry(".", FileType::Dir)])), -22);
}
