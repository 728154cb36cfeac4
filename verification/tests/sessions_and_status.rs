//! Status mapping, handle ownership, entries and writer edge cases.

use archive::entry::entry_type_from_mode;
use archive::entry::entry_type_to_mode;
use archive::entry::EntryData;
use archive::handle::HandleCell;
use archive::reader::Reader;
use archive::status::session_usable;
use archive::status::status_from_code;
use archive::stream::ByteSink;
use archive::stream::SliceSource;
use archive::stream::StreamError;
use archive::stream::VecSink;
use archive::writer::Format;
use archive::writer::Writer;
use archive::ArchiveHandle;
use archive::Entry;
use archive::EntryType;
use archive::Error;
use archive::Finally;
use archive::IOError;
use archive::Status;
use archive::WriteEntry;

/// A sink that accepts a bounded number of bytes and then fails.
struct BoundedSink {
    out: Vec<u8>,
    room: usize,
}

impl ByteSink for BoundedSink {
    fn accepted(&self) -> vstd::seq::Seq<u8> {
        panic!()
    }

    fn write(&mut self, data: &[u8]) -> Result<usize, StreamError> {
        if data.is_empty() {
            return Ok(0);
        }
        if self.out.len() >= self.room {
            return Err(StreamError { fatal: true, message: String::from("target volume is full") });
        }
        let n = (self.room - self.out.len()).min(data.len());
        self.out.extend_from_slice(&data[..n]);
        Ok(n)
    }
}

#[test]
fn raw_codes_map_onto_the_outcome_scale() {
    assert_eq!(status_from_code(0), Status::Success);
    assert_eq!(status_from_code(1), Status::EndOfInput);
    assert_eq!(status_from_code(-10), Status::Retry);
    assert_eq!(status_from_code(-20), Status::Warning);
    assert_eq!(status_from_code(-25), Status::Failed);
    assert_eq!(status_from_code(-30), Status::Fatal);
    // Anything off the scale counts as fatal.
    assert_eq!(status_from_code(-31), Status::Fatal);
    assert_eq!(status_from_code(7), Status::Fatal);
    // Only a fatal outcome poisons the session.
    assert!(session_usable(Status::Failed));
    assert!(session_usable(Status::Warning));
    assert!(session_usable(Status::Retry));
    assert!(!session_usable(Status::Fatal));
}

#[test]
fn handle_is_released_exactly_once() {
    let mut cell = HandleCell::new();
    assert_eq!(cell.ref_count(), 1);
    assert_eq!(cell.release_count(), 0);
    cell.retain();
    cell.retain();
    assert_eq!(cell.ref_count(), 3);
    cell.release();
    cell.release();
    assert_eq!(cell.release_count(), 0);
    cell.release();
    assert_eq!(cell.ref_count(), 0);
    assert_eq!(cell.release_count(), 1);
    assert!(!cell.live());
}

#[test]
fn sessions_release_their_handle_exactly_once() {
    let w = Writer::open(VecSink::new(), Format::Tar).unwrap();
    let (sink, cell, _) = w.close();
    assert_eq!(cell.release_count(), 1);
    assert_eq!(cell.ref_count(), 0);
    let r = Reader::open_stream(SliceSource::new(sink.into_bytes())).unwrap();
    let cell = r.close();
    assert_eq!(cell.release_count(), 1);
}

#[test]
fn file_type_codes_match_the_mode_bits() {
    assert_eq!(entry_type_to_mode(EntryType::File), 0x8000);
    assert_eq!(entry_type_to_mode(EntryType::Dir), 0x4000);
    assert_eq!(entry_type_to_mode(EntryType::Block), 0x6000);
    assert_eq!(entry_type_to_mode(EntryType::Link), 0xA000);
    assert_eq!(entry_type_to_mode(EntryType::Fifo), 0x1000);
    assert_eq!(entry_type_to_mode(EntryType::Character), 0x2000);
    assert_eq!(entry_type_to_mode(EntryType::Socket), 0xC000);
    assert_eq!(entry_type_to_mode(EntryType::Mt), 0xF000);
    assert_eq!(entry_type_to_mode(EntryType::Undefined), 0);
    for t in [
        EntryType::File,
        EntryType::Dir,
        EntryType::Block,
        EntryType::Link,
        EntryType::Fifo,
        EntryType::Character,
        EntryType::Socket,
        EntryType::Mt,
        EntryType::Undefined,
    ] {
        assert_eq!(entry_type_from_mode(entry_type_to_mode(t)), t);
    }
    assert_eq!(entry_type_from_mode(0x1234), EntryType::Undefined);
}

#[test]
fn write_entries_are_built_cloned_and_reset() {
    let mut e = WriteEntry::new();
    assert!(e.is_file());
    e.set_path(b"model".to_vec());
    e.set_permissions(0o640);
    e.set_entry_type(EntryType::Dir);
    assert!(e.is_directory());
    let copy = WriteEntry::clone(&e);
    assert_eq!(copy.path().as_slice(), b"model");
    assert_eq!(copy.permissions(), 0o640);
    assert_eq!(copy.entry_type(), EntryType::Dir);
    e.reset();
    assert!(e.path().is_empty());
    assert_eq!(e.entry_type(), EntryType::Undefined);
    let mut stub = WriteEntry::new();
    stub.set_entry_type(EntryType::Link);
    stub.stub();
    assert!(stub.is_file());
}

#[test]
fn payload_without_an_open_member_fails_locally() {
    let mut w = Writer::open(VecSink::new(), Format::Tar).unwrap();
    match w.write_data(&b"stray".to_vec()) {
        Err(IOError::Failed) => {}
        _ => panic!("payload needs a header first"),
    }
    // The failure is local: the session still takes members.
    let mut e = WriteEntry::new();
    e.set_path(b"fine".to_vec());
    assert!(w.add_full_stream(&mut e, SliceSource::new(b"x".to_vec())).is_ok());
}

#[test]
fn a_second_header_needs_the_first_member_finished() {
    let mut w = Writer::open(VecSink::new(), Format::Tar).unwrap();
    let mut meta = EntryData::empty();
    meta.path = b"open".to_vec();
    meta.size = 4;
    w.write_header(&meta).unwrap();
    match w.write_header(&meta) {
        Err(IOError::Failed) => {}
        _ => panic!("one member at a time"),
    }
    w.finish_entry().unwrap();
    assert!(w.write_header(&meta).is_ok());
}

#[test]
fn a_full_sink_refuses_to_open() {
    match Writer::open(BoundedSink { out: Vec::new(), room: 0 }, Format::Tar) {
        Err(Error::Open) => {}
        _ => panic!("the prelude cannot be written"),
    }
}

#[test]
fn a_sink_failure_mid_payload_poisons_the_session() {
    let mut w = Writer::open(BoundedSink { out: Vec::new(), room: 80 }, Format::Tar).unwrap();
    let mut e = WriteEntry::new();
    e.set_path(b"big".to_vec());
    let payload = vec![7u8; 4096];
    match w.add_full_stream(&mut e, SliceSource::new(payload)) {
        Err(IOError::Fatal) => {}
        other => panic!("the sink fills up mid-member: {:?}", other),
    }
    assert!(w.is_error());
    assert!(!w.error_string().is_empty());
    // The session is unusable from here on.
    let mut e2 = WriteEntry::new();
    e2.set_path(b"after".to_vec());
    assert!(matches!(
        w.add_full_stream(&mut e2, SliceSource::new(b"x".to_vec())),
        Err(IOError::Fatal)
    ));
}

#[test]
fn a_completion_marker_can_be_waived() {
    let mut fin = Finally::new();
    assert!(fin.armed());
    fin.cancel();
    assert!(!fin.armed());
}
