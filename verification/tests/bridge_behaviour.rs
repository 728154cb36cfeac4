//! The stream bridge's callback contract.

use archive::bridge::StreamBridge;
use archive::stream::ByteSource;
use archive::stream::StreamError;

/// A source that replays a script of read outcomes, one per call.
struct ScriptedSource {
    script: Vec<Result<Vec<u8>, String>>,
    at: usize,
}

impl ByteSource for ScriptedSource {
    fn stream(&self) -> vstd::seq::Seq<u8> {
        panic!()
    }

    fn read(&mut self, buf: &mut Vec<u8>) -> Result<usize, StreamError> {
        if self.at >= self.script.len() {
            return Ok(0);
        }
        let step = self.script[self.at].clone();
        self.at += 1;
        match step {
            Ok(bytes) => {
                for (i, b) in bytes.iter().enumerate() {
                    buf[i] = *b;
                }
                Ok(bytes.len())
            }
            Err(msg) => Err(StreamError { fatal: false, message: msg }),
        }
    }
}

#[test]
fn short_reads_pass_through_one_call_each() {
    // Three bytes, then a zero-byte read, then end of input: the bridge
    // surfaces three pulls with exactly those counts, nothing merged or
    // dropped.
    let source = ScriptedSource {
        script: vec![Ok(b"abc".to_vec()), Ok(Vec::new())],
        at: 0,
    };
    let mut bridge = StreamBridge::new(source);
    let first = bridge.pull();
    assert_eq!(first, 3);
    assert_eq!(bridge.copy_out(3), b"abc".to_vec());
    assert_eq!(bridge.pull(), 0);
    assert_eq!(bridge.pull(), 0);
    assert!(!bridge.error_present());
}

#[test]
fn skip_reports_zero_so_the_engine_falls_back_to_reads() {
    let source = ScriptedSource { script: vec![Ok(b"xy".to_vec())], at: 0 };
    let mut bridge = StreamBridge::new(source);
    assert_eq!(bridge.skip(100), 0);
    assert_eq!(bridge.skip(-5), 0);
    // Skipping moved nothing: the bytes still arrive in order.
    assert_eq!(bridge.pull(), 2);
    assert_eq!(bridge.copy_out(2), b"xy".to_vec());
}

#[test]
fn a_failing_read_reports_minus_one_and_records_the_description() {
    let source = ScriptedSource {
        script: vec![Ok(b"ok".to_vec()), Err(String::from("device timed out"))],
        at: 0,
    };
    let mut bridge = StreamBridge::new(source);
    assert_eq!(bridge.pull(), 2);
    assert_eq!(bridge.pull(), -1);
    assert!(bridge.error_present());
    assert_eq!(bridge.error_message(), "device timed out");
}

#[test]
fn close_hands_the_source_back() {
    let source = ScriptedSource { script: vec![Ok(b"z".to_vec())], at: 0 };
    let bridge = StreamBridge::new(source);
    let got = bridge.close();
    assert_eq!(got.script.len(), 1);
    assert_eq!(got.at, 0);
}
