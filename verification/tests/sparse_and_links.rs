//! Sparse-region copies and hard-link resolution.

use archive::disk::DataBlock;
use archive::disk::FsEntry;
use archive::disk::FsTree;
use archive::entry::EntryData;
use archive::entry::EntryType;
use archive::reader::Reader;
use archive::resolver::LinkResolver;
use archive::resolver::LinkStrategy;
use archive::stream::SliceSource;
use archive::stream::VecSink;
use archive::writer::ll_write_archive_entry;
use archive::writer::Format;
use archive::writer::Writer;
use archive::Entry;

fn file_meta(path: &[u8], size: u64) -> EntryData {
    let mut meta = EntryData::empty();
    meta.path = path.to_vec();
    meta.etype = EntryType::File;
    meta.perm = 0o644;
    meta.size = size;
    meta
}

fn fs_file(path: &[u8], dev: u64, ino: u64, nlink: u64, payload: &[u8]) -> FsEntry {
    FsEntry {
        meta: file_meta(path, payload.len() as u64),
        dev,
        ino,
        nlink,
        blocks: vec![DataBlock { data: payload.to_vec(), offset: 0 }],
    }
}

#[test]
fn sparse_copy_zero_fills_the_hole() {
    // Two data blocks: one at offset zero, one at offset 100.  The copy
    // must come out with the hole between them zero-filled.
    let bytes: &[u8] = b"head";
    let bytes2: &[u8] = b"tail-data";
    let total = 100 + bytes2.len() as u64;
    let blocks = vec![
        DataBlock { data: bytes.to_vec(), offset: 0 },
        DataBlock { data: bytes2.to_vec(), offset: 100 },
    ];
    let meta = file_meta(b"sparse.bin", total);
    let mut w = Writer::open(VecSink::new(), Format::Tar).unwrap();
    ll_write_archive_entry(&mut w, &meta, &blocks).unwrap();
    let (sink, _, _) = w.close();

    let mut r = Reader::open_stream(SliceSource::new(sink.into_bytes())).unwrap();
    let entry = r.next().unwrap().unwrap();
    assert_eq!(entry.payload.len(), total as usize);
    let mut expected = bytes.to_vec();
    expected.resize(100, 0);
    expected.extend_from_slice(bytes2);
    assert_eq!(entry.payload, expected);
    assert!(entry.payload[4..100].iter().all(|b| *b == 0));
}

#[test]
fn trailing_hole_is_padded_to_the_declared_size() {
    // One block, but the declared size reaches past it: the member is
    // padded with zero bytes out to its size.
    let blocks = vec![DataBlock { data: b"abc".to_vec(), offset: 0 }];
    let meta = file_meta(b"trailing", 8);
    let mut w = Writer::open(VecSink::new(), Format::Tar).unwrap();
    ll_write_archive_entry(&mut w, &meta, &blocks).unwrap();
    let (sink, _, _) = w.close();
    let mut r = Reader::open_stream(SliceSource::new(sink.into_bytes())).unwrap();
    let entry = r.next().unwrap().unwrap();
    assert_eq!(entry.payload, b"abc\x00\x00\x00\x00\x00".to_vec());
}

#[test]
fn payload_beyond_the_declared_size_is_cut_and_reported() {
    // The declared size is smaller than what the blocks hold: the copy
    // stops at the declared size and reports the member written partly.
    let blocks = vec![DataBlock { data: b"0123456789".to_vec(), offset: 0 }];
    let meta = file_meta(b"overrun", 4);
    let mut w = Writer::open(VecSink::new(), Format::Tar).unwrap();
    match ll_write_archive_entry(&mut w, &meta, &blocks) {
        Err(archive::IOError::PartlyDone) => {}
        other => panic!("an overrun is a partial write: {:?}", other),
    }
    // The member that did land is complete at its declared size, so the
    // session and the container stay usable.
    let (sink, _, _) = w.close();
    let mut r = Reader::open_stream(SliceSource::new(sink.into_bytes())).unwrap();
    let entry = r.next().unwrap().unwrap();
    assert_eq!(entry.payload, b"0123".to_vec());
    assert!(r.next().unwrap().is_none());
}

#[test]
fn hardlink_pair_becomes_one_member_and_one_reference() {
    // Two filesystem names for one file, traversed in sequence: exactly
    // one full-content member and one link reference come out.
    let tree = FsTree {
        entries: vec![
            fs_file(b"root/a", 7, 100, 2, b"shared content"),
            fs_file(b"root/b", 7, 100, 2, b"shared content"),
        ],
    };
    let mut w = Writer::open(VecSink::new(), Format::Tar).unwrap();
    w.add_path(&tree, &b"root/".to_vec()).unwrap();
    let (sink, cell, flushed) = w.close();
    assert!(flushed.is_ok());
    assert_eq!(cell.release_count(), 1);

    let mut r = Reader::open_stream(SliceSource::new(sink.into_bytes())).unwrap();
    let first = r.next().unwrap().unwrap();
    assert_eq!(first.path().as_slice(), b"root/a");
    assert_eq!(first.payload.as_slice(), b"shared content");
    assert!(first.data.hardlink.is_empty());
    let second = r.next().unwrap().unwrap();
    assert_eq!(second.path().as_slice(), b"root/b");
    assert_eq!(second.data.hardlink.as_slice(), b"root/a");
    assert_eq!(second.size(), 0);
    assert!(second.payload.is_empty());
    assert!(r.next().unwrap().is_none());
}

#[test]
fn hardlink_pair_in_the_other_order() {
    let tree = FsTree {
        entries: vec![
            fs_file(b"root/b", 7, 100, 2, b"shared content"),
            fs_file(b"root/a", 7, 100, 2, b"shared content"),
        ],
    };
    let mut w = Writer::open(VecSink::new(), Format::Tar).unwrap();
    w.add_path(&tree, &b"root/".to_vec()).unwrap();
    let (sink, _, _) = w.close();
    let mut r = Reader::open_stream(SliceSource::new(sink.into_bytes())).unwrap();
    let first = r.next().unwrap().unwrap();
    assert_eq!(first.path().as_slice(), b"root/b");
    assert!(first.data.hardlink.is_empty());
    let second = r.next().unwrap().unwrap();
    assert_eq!(second.data.hardlink.as_slice(), b"root/b");
    assert!(r.next().unwrap().is_none());
}

#[test]
fn unlinked_files_pass_through_unchanged() {
    let tree = FsTree {
        entries: vec![
            fs_file(b"d/x", 1, 10, 1, b"one"),
            fs_file(b"d/y", 1, 11, 1, b"two"),
        ],
    };
    let mut w = Writer::open(VecSink::new(), Format::Tar).unwrap();
    w.add_path(&tree, &b"d/".to_vec()).unwrap();
    let (sink, _, _) = w.close();
    let mut r = Reader::open_stream(SliceSource::new(sink.into_bytes())).unwrap();
    let x = r.next().unwrap().unwrap();
    assert_eq!(x.payload.as_slice(), b"one");
    assert!(x.data.hardlink.is_empty());
    let y = r.next().unwrap().unwrap();
    assert_eq!(y.payload.as_slice(), b"two");
    assert!(y.data.hardlink.is_empty());
}

#[test]
fn traversal_of_a_missing_root_fails_and_writes_nothing() {
    let tree = FsTree { entries: vec![fs_file(b"elsewhere/x", 1, 10, 1, b"one")] };
    let mut w = Writer::open(VecSink::new(), Format::Tar).unwrap();
    assert!(w.add_path(&tree, &b"root/".to_vec()).is_err());
    let (sink, _, _) = w.close();
    // Only the prelude was ever written.
    assert_eq!(sink.into_bytes().len(), 6);
}

#[test]
fn callback_rejects_and_rewrites_members() {
    let tree = FsTree {
        entries: vec![
            fs_file(b"root/keep", 1, 10, 1, b"kept"),
            fs_file(b"root/drop", 1, 11, 1, b"dropped"),
        ],
    };
    let mut w = Writer::open(VecSink::new(), Format::Tar).unwrap();
    w.add_path_with_callback(&tree, &b"root/".to_vec(), |meta: &EntryData| {
        if meta.path.as_slice() == b"root/drop" {
            None
        } else {
            let mut renamed = meta.duplicate();
            renamed.path = b"renamed".to_vec();
            Some(renamed)
        }
    })
    .unwrap();
    let (sink, _, _) = w.close();
    let mut r = Reader::open_stream(SliceSource::new(sink.into_bytes())).unwrap();
    let only = r.next().unwrap().unwrap();
    assert_eq!(only.path().as_slice(), b"renamed");
    assert_eq!(only.payload.as_slice(), b"kept");
    assert!(r.next().unwrap().is_none());
}

#[test]
fn with_last_strategy_withholds_until_flush() {
    let mut resolver = LinkResolver::new();
    resolver.set_strategy(LinkStrategy::WithLast);
    // The first name of a link group is withheld.
    assert!(resolver.linkify(fs_file(b"a", 3, 9, 2, b"payload")).is_none());
    // The second name releases the first as a reference to itself.
    let released = resolver.linkify(fs_file(b"b", 3, 9, 2, b"payload")).unwrap();
    assert_eq!(released.meta.path.as_slice(), b"a");
    assert_eq!(released.meta.hardlink.as_slice(), b"b");
    assert_eq!(released.meta.size, 0);
    assert!(released.blocks.is_empty());
    // The close-time flush hands out the name that carries the content.
    let flushed = resolver.flush();
    assert_eq!(flushed.len(), 1);
    assert_eq!(flushed[0].meta.path.as_slice(), b"b");
    assert_eq!(flushed[0].meta.size, 7);
    assert!(resolver.flush().is_empty());
}

#[test]
fn with_first_strategy_never_withholds() {
    let mut resolver = LinkResolver::new();
    resolver.set_strategy(LinkStrategy::WithFirst);
    let first = resolver.linkify(fs_file(b"a", 3, 9, 2, b"payload")).unwrap();
    assert_eq!(first.meta.path.as_slice(), b"a");
    assert!(first.meta.hardlink.is_empty());
    let second = resolver.linkify(fs_file(b"b", 3, 9, 2, b"payload")).unwrap();
    assert_eq!(second.meta.hardlink.as_slice(), b"a");
    assert!(resolver.flush().is_empty());
}
