//! The read session's state machine and error channel.

use archive::reader::Reader;
use archive::stream::ByteSource;
use archive::stream::SliceSource;
use archive::stream::StreamError;
use archive::stream::VecSink;
use archive::writer::Format;
use archive::writer::Writer;
use archive::ArchiveHandle;
use archive::Entry;
use archive::Error;
use archive::IOError;
use archive::WriteEntry;

/// A source that delivers nothing and then fails.
struct FailingSource {
    calls: usize,
}

impl ByteSource for FailingSource {
    fn stream(&self) -> vstd::seq::Seq<u8> {
        panic!()
    }

    fn read(&mut self, _buf: &mut Vec<u8>) -> Result<usize, StreamError> {
        self.calls += 1;
        Err(StreamError { fatal: true, message: String::from("backing store went away") })
    }
}

fn empty_archive() -> Vec<u8> {
    let w = Writer::open(VecSink::new(), Format::Tar).unwrap();
    let (sink, _, _) = w.close();
    sink.into_bytes()
}

#[test]
fn end_of_input_is_idempotent() {
    let mut r = Reader::open_stream(SliceSource::new(empty_archive())).unwrap();
    assert!(r.next().unwrap().is_none());
    assert!(r.next().unwrap().is_none());
    assert!(r.next().unwrap().is_none());
}

#[test]
fn end_of_input_stays_after_members() {
    let mut w = Writer::open(VecSink::new(), Format::Tar).unwrap();
    let mut e = WriteEntry::new();
    e.set_path(b"only".to_vec());
    w.add_full_stream(&mut e, SliceSource::new(b"x".to_vec())).unwrap();
    let (sink, _, _) = w.close();
    let mut r = Reader::open_stream(SliceSource::new(sink.into_bytes())).unwrap();
    assert!(r.next().unwrap().is_some());
    for _ in 0..4 {
        assert!(r.next().unwrap().is_none());
    }
}

#[test]
fn foreign_bytes_are_refused_at_open() {
    let garbage = b"not an archive at all".to_vec();
    match Reader::open_stream(SliceSource::new(garbage)) {
        Err(Error::Open) => {}
        _ => panic!("a foreign prelude must be refused"),
    }
}

#[test]
fn empty_stream_is_refused_at_open() {
    match Reader::open_stream(SliceSource::new(Vec::new())) {
        Err(Error::Open) => {}
        _ => panic!("an empty stream holds no prelude"),
    }
}

#[test]
fn failing_source_is_refused_at_open() {
    match Reader::open_stream(FailingSource { calls: 0 }) {
        Err(Error::Open) => {}
        _ => panic!("a failing source cannot open"),
    }
}

#[test]
fn truncated_archive_is_fatal() {
    let mut w = Writer::open(VecSink::new(), Format::Tar).unwrap();
    let mut e = WriteEntry::new();
    e.set_path(b"cut".to_vec());
    w.add_full_stream(&mut e, SliceSource::new(b"payload".to_vec())).unwrap();
    let (sink, _, _) = w.close();
    let mut bytes = sink.into_bytes();
    bytes.truncate(bytes.len() - 3);
    let mut r = Reader::open_stream(SliceSource::new(bytes)).unwrap();
    match r.next() {
        Err(IOError::Fatal) => {}
        _ => panic!("a truncated member must be fatal"),
    }
    assert!(r.is_error());
    assert_eq!(r.error_string(), "truncated archive");
    // The session is poisoned: further calls keep failing, never panic.
    assert!(matches!(r.next(), Err(IOError::Fatal)));
}

#[test]
fn read_data_pulls_payload_in_chunks() {
    let mut w = Writer::open(VecSink::new(), Format::Tar).unwrap();
    let mut e = WriteEntry::new();
    e.set_path(b"chunky".to_vec());
    w.add_full_stream(&mut e, SliceSource::new(b"abcdefgh".to_vec())).unwrap();
    let (sink, _, _) = w.close();
    let mut r = Reader::open_stream(SliceSource::new(sink.into_bytes())).unwrap();
    let mut entry = r.next().unwrap().unwrap();
    assert_eq!(entry.read_data(3).unwrap(), b"abc".to_vec());
    assert_eq!(entry.read_data(3).unwrap(), b"def".to_vec());
    assert_eq!(entry.read_data(3).unwrap(), b"gh".to_vec());
    assert!(entry.read_data(3).is_none());
    assert!(entry.read_data(1).is_none());
}

#[test]
fn fresh_session_reports_no_error() {
    let r = Reader::open_stream(SliceSource::new(empty_archive())).unwrap();
    assert!(!r.is_error());
    assert_eq!(r.error_string(), "");
}
