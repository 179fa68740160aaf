//! The pull side of the native bridge and its teardown discipline.

use mgp::bridge::{NativeBridge, Pull, StreamingInput};

#[test]
fn irregular_chunks_deliver_the_complete_stream() {
    let chunks: Vec<Vec<u8>> = vec![
        b"ab".to_vec(),
        Vec::new(),
        b"cdefg".to_vec(),
        Vec::new(),
        Vec::new(),
        b"h".to_vec(),
    ];
    let mut input = StreamingInput::new(chunks);
    let mut collected = Vec::new();
    let mut eof_seen = 0;
    loop {
        match input.pull(3) {
            Pull::Data(v) => {
                assert!(!v.is_empty());
                assert!(v.len() <= 3);
                collected.extend_from_slice(&v);
            }
            Pull::Eof => {
                eof_seen += 1;
                break;
            }
        }
    }
    assert_eq!(collected, b"abcdefgh".to_vec());
    assert_eq!(eof_seen, 1);
    assert!(matches!(input.pull(3), Pull::Eof));
    input.close();
}

#[test]
fn zero_length_reads_before_eof_do_not_end_the_stream() {
    // A reader that yields an empty chunk first must not look exhausted.
    let chunks: Vec<Vec<u8>> = vec![Vec::new(), b"payload".to_vec()];
    let mut input = StreamingInput::new(chunks);
    match input.pull(100) {
        Pull::Data(v) => assert_eq!(v, b"payload".to_vec()),
        Pull::Eof => panic!("a zero-length read was taken for end of stream"),
    }
    assert!(matches!(input.pull(100), Pull::Eof));
}

#[test]
fn drain_collects_everything_in_order() {
    let chunks: Vec<Vec<u8>> = vec![
        Vec::new(),
        b"0123456789".to_vec(),
        b"x".to_vec(),
        Vec::new(),
        b"yz".to_vec(),
    ];
    let mut input = StreamingInput::new(chunks);
    let all = input.drain_all(4);
    assert_eq!(all, b"0123456789xyz".to_vec());
    assert_eq!(input.drain_all(4), Vec::<u8>::new());
}

#[test]
fn empty_stream_is_eof_at_once() {
    let mut input = StreamingInput::new(Vec::new());
    assert!(matches!(input.pull(1), Pull::Eof));
    let mut empties = StreamingInput::new(vec![Vec::new(), Vec::new()]);
    assert!(matches!(empties.pull(1), Pull::Eof));
}

#[test]
fn teardown_balances_the_counters_exactly_once() {
    let mut bridge = NativeBridge::new();
    assert_eq!(bridge.allocations(), 0);
    assert_eq!(bridge.releases(), 0);
    bridge.open();
    assert_eq!(bridge.allocations(), 3);
    assert_eq!(bridge.releases(), 0);
    bridge.close();
    assert_eq!(bridge.allocations(), 3);
    assert_eq!(bridge.releases(), 3);
    // A second teardown must not release anything again.
    bridge.close();
    assert_eq!(bridge.releases(), 3);
}

#[test]
fn teardown_without_open_releases_nothing() {
    let mut bridge = NativeBridge::new();
    bridge.close();
    assert_eq!(bridge.allocations(), 0);
    assert_eq!(bridge.releases(), 0);
}

#[test]
fn adapter_construction_and_destruction_balance() {
    let mut input = StreamingInput::new(vec![b"abc".to_vec()]);
    let all = input.drain_all(8);
    assert_eq!(all, b"abc".to_vec());
    input.close();
    input.close();
}
