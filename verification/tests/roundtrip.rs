//! Writing members and reading them back.

use archive::codec;
use archive::reader::Reader;
use archive::stream::SliceSource;
use archive::stream::VecSink;
use archive::writer::Format;
use archive::writer::Writer;
use archive::Entry;
use archive::WriteEntry;

fn write_archive(format: Format, members: &[(&[u8], u16, &[u8])]) -> Vec<u8> {
    let mut w = Writer::open(VecSink::new(), format).unwrap();
    for (path, perm, payload) in members {
        let mut e = WriteEntry::new();
        e.set_path(path.to_vec());
        e.set_permissions(*perm);
        let r = w.add_full_stream(&mut e, SliceSource::new(payload.to_vec()));
        assert!(r.is_ok());
        assert_eq!(e.size(), payload.len() as u64);
    }
    let (sink, cell, flushed) = w.close();
    assert!(flushed.is_ok());
    assert_eq!(cell.release_count(), 1);
    sink.into_bytes()
}

#[test]
fn three_members_come_back_in_order() {
    let members: [(&[u8], u16, &[u8]); 3] = [
        (b"a.txt", 0o644, b"first payload"),
        (b"dir/b.bin", 0o600, b"\x00\x01\x02\x03"),
        (b"empty", 0o444, b""),
    ];
    let bytes = write_archive(Format::Tar, &members);
    let mut r = Reader::open_stream(SliceSource::new(bytes)).unwrap();
    for (path, perm, payload) in &members {
        let entry = r.next().unwrap().expect("a member was written here");
        assert_eq!(entry.path().as_slice(), *path);
        assert_eq!(entry.permissions(), *perm);
        assert_eq!(entry.payload.as_slice(), *payload);
    }
    assert!(r.next().unwrap().is_none());
    let cell = r.close();
    assert_eq!(cell.release_count(), 1);
}

#[test]
fn prelude_names_container_and_filter() {
    let bytes = write_archive(Format::TarGz, &[(b"x", 0o644, b"y")]);
    assert_eq!(
        &bytes[..6],
        &[0x76, 0x61, 0x72, 0x63, codec::CONTAINER_TAR, codec::FILTER_GZIP]
    );
    let r = Reader::open_stream(SliceSource::new(bytes)).unwrap();
    assert_eq!(r.container(), codec::CONTAINER_TAR);
    assert_eq!(r.filter(), codec::FILTER_GZIP);
}

#[test]
fn every_format_round_trips() {
    for format in [Format::Tar, Format::TarGz, Format::TarXz, Format::Zip] {
        let bytes = write_archive(format, &[(b"f", 0o755, b"data")]);
        let mut r = Reader::open_stream(SliceSource::new(bytes)).unwrap();
        let entry = r.next().unwrap().unwrap();
        assert_eq!(entry.path().as_slice(), b"f");
        assert_eq!(entry.payload.as_slice(), b"data");
        assert!(r.next().unwrap().is_none());
    }
}

#[test]
fn timestamps_and_names_round_trip() {
    let mut w = Writer::open(VecSink::new(), Format::Tar).unwrap();
    let mut e = WriteEntry::new();
    e.set_path(b"stamped".to_vec());
    e.data.uname = b"operator".to_vec();
    e.data.gname = b"staff".to_vec();
    e.data.mtime_s = 1_700_000_000;
    e.data.mtime_ns = 123_456_789;
    e.data.atime_s = 42;
    let r = w.add_full_stream(&mut e, SliceSource::new(b"tick".to_vec()));
    assert!(r.is_ok());
    let (sink, _, _) = w.close();
    let mut rd = Reader::open_stream(SliceSource::new(sink.into_bytes())).unwrap();
    let got = rd.next().unwrap().unwrap();
    assert_eq!(got.user_name().as_slice(), b"operator");
    assert_eq!(got.group_name().as_slice(), b"staff");
    assert_eq!(got.data.mtime_s, 1_700_000_000);
    assert_eq!(got.data.mtime_ns, 123_456_789);
    assert_eq!(got.data.atime_s, 42);
}

#[test]
fn repack_copies_members_between_sessions() {
    let bytes = write_archive(Format::Tar, &[(b"one", 0o644, b"alpha"), (b"two", 0o600, b"beta")]);
    let mut from = Reader::open_stream(SliceSource::new(bytes)).unwrap();
    let mut to = Writer::open(VecSink::new(), Format::Zip).unwrap();
    while let Some(entry) = from.next().unwrap() {
        to.add_archive_entry(&entry).unwrap();
    }
    let (sink, _, _) = to.close();
    let mut check = Reader::open_stream(SliceSource::new(sink.into_bytes())).unwrap();
    let a = check.next().unwrap().unwrap();
    assert_eq!(a.path().as_slice(), b"one");
    assert_eq!(a.payload.as_slice(), b"alpha");
    let b = check.next().unwrap().unwrap();
    assert_eq!(b.path().as_slice(), b"two");
    assert_eq!(b.payload.as_slice(), b"beta");
    assert!(check.next().unwrap().is_none());
}
