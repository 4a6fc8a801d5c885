use uspace_fs::dirent::FileType;
use uspace_fs::getdents::{getdents64, DirEntryInfo};
use uspace_fs::hardlink::HardlinkManager;
use uspace_fs::shims::{
    mkdirat_allowed, status_code, sys_ioctl, sys_linkat, unlink_action, unlink_file, UnlinkAction,
    AT_FDCWD, AT_REMOVEDIR,
};

#[test]
fn link_then_unlink() {
    let mut m = HardlinkManager::new();
    assert_eq!(sys_linkat(&mut m, b"/a", b"/b", true, false), 0);
    assert!(m.is_link(b"/b"));
    assert_eq!(m.resolve(b"/b"), b"/a".to_vec());
    assert_eq!(m.resolve(b"/a"), b"/a".to_vec());
    assert_eq!(unlink_file(&mut m, b"/b", false), Ok(()));
    assert!(!m.is_link(b"/b"));
    assert_eq!(unlink_file(&mut m, b"/b", false), Err(2));
    assert_eq!(m.resolve(b"/a"), b"/a".to_vec());
}

#[test]
fn link_to_a_link_names_the_first_target() {
    let mut m = HardlinkManager::new();
    assert_eq!(m.create_link(b"/b", b"/a", true, false), Ok(()));
    assert_eq!(m.create_link(b"/c", b"/b", false, false), Ok(()));
    assert_eq!(m.resolve(b"/c"), b"/a".to_vec());
    assert_eq!(m.remove_link(b"/b"), Some(b"/a".to_vec()));
    assert_eq!(m.resolve(b"/c"), b"/a".to_vec());
}

#[test]
fn link_errors() {
    let mut m = HardlinkManager::new();
    assert_eq!(m.create_link(b"/b", b"/missing", false, false), Err(2));
    assert_eq!(sys_linkat(&mut m, b"/missing", b"/b", false, false), -1);
    assert_eq!(m.create_link(b"/b", b"/a", true, false), Ok(()));
    assert_eq!(m.create_link(b"/b", b"/z", true, false), Err(17));
    assert_eq!(m.resolve(b"/b"), b"/a".to_vec());
    assert_eq!(m.remove_link(b"/nothing"), None);
}

#[test]
fn unlink_of_a_directory_is_eisdir() {
    let mut m = HardlinkManager::new();
    assert_eq!(m.create_link(b"/b", b"/a", true, false), Ok(()));
    assert_eq!(unlink_file(&mut m, b"/b", true), Err(21));
    assert!(m.is_link(b"/b"));
}

#[test]
fn mkdirat_path_rules() {
    assert!(mkdirat_allowed(AT_FDCWD, b"/tmp/d"));
    assert!(mkdirat_allowed(AT_FDCWD, b"d"));
    assert!(mkdirat_allowed(5, b"/tmp/d"));
    assert!(!mkdirat_allowed(5, b"d"));
    assert!(!mkdirat_allowed(5, b""));
}

#[test]
fn unlinkat_flags() {
    assert_eq!(unlink_action(AT_REMOVEDIR), UnlinkAction::RemoveDir);
    assert_eq!(unlink_action(0x200), UnlinkAction::RemoveDir);
    assert_eq!(unlink_action(0), UnlinkAction::UnlinkFile);
    assert_eq!(unlink_action(0x201), UnlinkAction::RemoveDir);
    assert_eq!(unlink_action(0x100), UnlinkAction::UnlinkFile);
}

#[test]
fn ioctl_always_succeeds() {
    assert_eq!(sys_ioctl(0, 0x5401, 0), 0);
    assert_eq!(sys_ioctl(-1, usize::MAX, 12), 0);
}

#[test]
fn status_codes() {
    assert_eq!(status_code::<i32>(Ok(())), 0);
    assert_eq!(status_code::<i32>(Err(2)), -1);
}

#[test]
fn link_over_an_existing_file_is_refused() {
    let mut m = HardlinkManager::new();
    assert_eq!(m.create_link(b"/b", b"/a", true, true), Err(17));
    assert!(!m.is_link(b"/b"));
    assert_eq!(sys_linkat(&mut m, b"/a", b"/b", true, true), -1);
    assert!(!m.is_link(b"/b"));
    assert_eq!(m.resolve(b"/b"), b"/b".to_vec());
}

fn names_in(buf: &[u8], len: usize) -> Vec<(String, u8)> {
    let mut out = Vec::new();
    let mut pos = 0;
    while pos < len {
        let reclen = u16::from_le_bytes([buf[pos + 16], buf[pos + 17]]) as usize;
        let end = buf[pos + 19..].iter().position(|&c| c == 0).unwrap() + pos + 19;
        out.push((String::from_utf8(buf[pos + 19..end].to_vec()).unwrap(), buf[pos + 18]));
        pos += reclen;
    }
    out
}

/// A stand-in for the backend's view of /tmp: what mkdirat creates and
/// unlinkat removes, as far as the library's decisions let them through.
fn mkdirat(tmp: &mut Vec<DirEntryInfo>, dirfd: i32, path: &[u8], _mode: u32) -> i32 {
    if !mkdirat_allowed(dirfd, path) {
        return -1;
    }
    let name = path.rsplit(|&c| c == b'/').next().unwrap().to_vec();
    tmp.push(DirEntryInfo { name, file_type: FileType::Dir });
    0
}

fn unlinkat_dir(tmp: &mut Vec<DirEntryInfo>, path: &[u8], flags: usize) -> i32 {
    match unlink_action(flags) {
        UnlinkAction::RemoveDir => {
            let name = path.rsplit(|&c| c == b'/').next().unwrap();
            let before = tmp.len();
            tmp.retain(|e| e.name != name);
            status_code::<()>(if tmp.len() < before { Ok(()) } else { Err(()) })
        }
        UnlinkAction::UnlinkFile => -1,
    }
}

fn list(tmp: &[DirEntryInfo]) -> Vec<(String, u8)> {
    let entries: Vec<DirEntryInfo> = tmp
        .iter()
        .map(|e| DirEntryInfo { name: e.name.clone(), file_type: e.file_type })
        .collect();
    let mut buf = vec![0u8; 256];
    let r = getdents64(&mut buf, Some(entries));
    assert!(r >= 0);
    names_in(&buf, r as usize)
}

#[test]
fn mkdir_list_rmdir_scenario() {
    let mut tmp = vec![DirEntryInfo { name: b"f".to_vec(), file_type: FileType::Reg }];
    assert_eq!(mkdirat(&mut tmp, AT_FDCWD, b"/tmp/d", 0), 0);
    let listed = list(&tmp);
    assert!(listed.contains(&("d".to_string(), 4)));
    assert_eq!(unlinkat_dir(&mut tmp, b"/tmp/d", 0x200), 0);
    let listed = list(&tmp);
    assert!(listed.iter().all(|(name, _)| name != "d"));
    assert_eq!(listed, vec![("f".to_string(), 8)]);
}
