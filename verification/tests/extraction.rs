//! Extraction flags against the disk model.

use archive::disk::Disk;
use archive::flags;
use archive::reader::Reader;
use archive::stream::SliceSource;
use archive::stream::VecSink;
use archive::writer::Format;
use archive::writer::Writer;
use archive::Entry;
use archive::ExtractFlags;
use archive::IOError;
use archive::WriteEntry;

fn one_member_archive(path: &[u8], perm: u16, payload: &[u8]) -> Vec<u8> {
    let mut w = Writer::open(VecSink::new(), Format::Tar).unwrap();
    let mut e = WriteEntry::new();
    e.set_path(path.to_vec());
    e.set_permissions(perm);
    e.data.uname = b"owner".to_vec();
    e.data.gname = b"group".to_vec();
    e.data.mtime_s = 1000;
    w.add_full_stream(&mut e, SliceSource::new(payload.to_vec())).unwrap();
    let (sink, _, _) = w.close();
    sink.into_bytes()
}

fn take_entry(bytes: &[u8]) -> archive::ReaderEntry {
    let mut r = Reader::open_stream(SliceSource::new(bytes.to_vec())).unwrap();
    r.next().unwrap().unwrap()
}

#[test]
fn no_overwrite_fails_the_second_extraction() {
    let bytes = one_member_archive(b"f.txt", 0o600, b"v1");
    let flags = ExtractFlags::empty().with(flags::EXTRACT_NO_OVERWRITE);
    let mut disk = Disk::new();
    take_entry(&bytes).extract(&mut disk, flags).unwrap();
    assert_eq!(disk.read_file(&b"f.txt".to_vec()).unwrap(), b"v1".to_vec());
    match take_entry(&bytes).extract(&mut disk, flags) {
        Err(IOError::Failed) => {}
        _ => panic!("the target path is already taken"),
    }
    // The first extraction's file is untouched.
    assert_eq!(disk.read_file(&b"f.txt".to_vec()).unwrap(), b"v1".to_vec());
}

#[test]
fn unlink_succeeds_both_times() {
    let bytes = one_member_archive(b"f.txt", 0o600, b"v1");
    let flags = ExtractFlags::empty().with(flags::EXTRACT_UNLINK);
    let mut disk = Disk::new();
    take_entry(&bytes).extract(&mut disk, flags).unwrap();
    take_entry(&bytes).extract(&mut disk, flags).unwrap();
    assert_eq!(disk.read_file(&b"f.txt".to_vec()).unwrap(), b"v1".to_vec());
}

#[test]
fn dotdot_paths_are_refused_under_the_secure_check() {
    let bytes = one_member_archive(b"up/../../etc/passwd", 0o600, b"no");
    let flags = ExtractFlags::empty().with(flags::EXTRACT_SECURE_NODOTDOT);
    let mut disk = Disk::new();
    match take_entry(&bytes).extract(&mut disk, flags) {
        Err(IOError::Failed) => {}
        _ => panic!("a parent-directory segment must be refused"),
    }
    assert!(!disk.contains(&b"up/../../etc/passwd".to_vec()));
    // Without the check the same entry lands on the disk model.
    take_entry(&bytes).extract(&mut disk, ExtractFlags::empty()).unwrap();
    assert!(disk.contains(&b"up/../../etc/passwd".to_vec()));
}

#[test]
fn absolute_paths_are_refused_under_the_secure_check() {
    let bytes = one_member_archive(b"/etc/hosts", 0o600, b"no");
    let flags = ExtractFlags::empty().with(flags::EXTRACT_SECURE_NOABSOLUTEPATHS);
    let mut disk = Disk::new();
    assert!(take_entry(&bytes).extract(&mut disk, flags).is_err());
    assert!(take_entry(&bytes).extract(&mut disk, ExtractFlags::empty()).is_ok());
}

#[test]
fn attributes_are_preserved_only_where_asked() {
    let bytes = one_member_archive(b"attrs", 0o751, b"data");
    let mut disk = Disk::new();
    take_entry(&bytes).extract(&mut disk, ExtractFlags::empty()).unwrap();
    {
        let f = disk.stat(&b"attrs".to_vec()).unwrap();
        assert_eq!(f.perm, 0o644);
        assert!(f.uname.is_empty());
        assert_eq!(f.mtime_s, 0);
    }
    let all = ExtractFlags::empty()
        .with(flags::EXTRACT_PERM)
        .with(flags::EXTRACT_OWNER)
        .with(flags::EXTRACT_TIME);
    let mut disk2 = Disk::new();
    take_entry(&bytes).extract(&mut disk2, all).unwrap();
    let f = disk2.stat(&b"attrs".to_vec()).unwrap();
    assert_eq!(f.perm, 0o751);
    assert_eq!(f.uname.as_slice(), b"owner");
    assert_eq!(f.gname.as_slice(), b"group");
    assert_eq!(f.mtime_s, 1000);
}

#[test]
fn no_overwrite_newer_keeps_a_newer_file() {
    let older = one_member_archive(b"f", 0o644, b"old");
    let flags_time = ExtractFlags::empty().with(flags::EXTRACT_TIME);
    let mut disk = Disk::new();
    take_entry(&older).extract(&mut disk, flags_time).unwrap();

    // A second extraction of an entry that is not newer is refused when
    // the newer-check is on...
    let mut w = Writer::open(VecSink::new(), Format::Tar).unwrap();
    let mut e = WriteEntry::new();
    e.set_path(b"f".to_vec());
    e.data.mtime_s = 500;
    w.add_full_stream(&mut e, SliceSource::new(b"older still".to_vec())).unwrap();
    let (sink, _, _) = w.close();
    let staler = sink.into_bytes();
    let guard = flags_time.with(flags::EXTRACT_NO_OVERWRITE_NEWER);
    assert!(take_entry(&staler).extract(&mut disk, guard).is_err());
    assert_eq!(disk.read_file(&b"f".to_vec()).unwrap(), b"old".to_vec());

    // ...while an entry at least as new replaces the file.
    assert!(take_entry(&older).extract(&mut disk, guard).is_ok());
}
