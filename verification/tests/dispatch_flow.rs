use commit_log::dispatch::{Handler, Request, Response};
use commit_log::store::StoreError;

#[test]
fn send_poll_commit_list_round_trip() {
    let mut h = Handler::new();
    let r1 = h.process(Request::Send { key: "k1".to_string(), msg: 10 });
    assert_eq!(r1, Response::SendOk { offset: 0 });
    let r2 = h.process(Request::Send { key: "k1".to_string(), msg: 20 });
    assert_eq!(r2, Response::SendOk { offset: 1 });
    let r3 = h.process(Request::Poll { offsets: vec![("k1".to_string(), 0)] });
    assert_eq!(
        r3,
        Response::PollOk { msgs: vec![("k1".to_string(), vec![(0, 10), (1, 20)])] }
    );
    let r4 = h.process(Request::CommitOffsets { offsets: vec![("k1".to_string(), 1)] });
    assert_eq!(r4, Response::CommitOffsetsOk);
    let r5 = h.process(Request::ListCommittedOffsets {
        keys: vec!["k1".to_string(), "unknown".to_string()],
    });
    assert_eq!(
        r5,
        Response::ListCommittedOffsetsOk {
            offsets: vec![("k1".to_string(), 1), ("unknown".to_string(), 0)],
        }
    );
}

#[test]
fn poll_past_length_fails_and_node_stays_alive() {
    let mut h = Handler::new();
    h.process(Request::Send { key: "k1".to_string(), msg: 10 });
    h.process(Request::Send { key: "k1".to_string(), msg: 20 });
    let r = h.process(Request::Poll { offsets: vec![("k1".to_string(), 5)] });
    assert_eq!(
        r,
        Response::Error { kind: StoreError::InvalidOffset, key: "k1".to_string() }
    );
    let r2 = h.process(Request::Poll { offsets: vec![("k1".to_string(), 1)] });
    assert_eq!(r2, Response::PollOk { msgs: vec![("k1".to_string(), vec![(1, 20)])] });
}

#[test]
fn poll_unknown_key_names_key_and_kind() {
    let mut h = Handler::new();
    h.process(Request::Send { key: "a".to_string(), msg: 1 });
    let r = h.process(Request::Poll {
        offsets: vec![("a".to_string(), 0), ("missing".to_string(), 0)],
    });
    assert_eq!(
        r,
        Response::Error { kind: StoreError::KeyNotFound, key: "missing".to_string() }
    );
}

#[test]
fn poll_reports_first_offending_key() {
    let mut h = Handler::new();
    h.process(Request::Send { key: "a".to_string(), msg: 1 });
    let r = h.process(Request::Poll {
        offsets: vec![("missing".to_string(), 0), ("a".to_string(), 5)],
    });
    assert_eq!(
        r,
        Response::Error { kind: StoreError::KeyNotFound, key: "missing".to_string() }
    );
}

#[test]
fn poll_caught_up_key_yields_empty_entry_list() {
    let mut h = Handler::new();
    h.process(Request::Send { key: "a".to_string(), msg: 1 });
    let r = h.process(Request::Poll { offsets: vec![("a".to_string(), 1)] });
    assert_eq!(r, Response::PollOk { msgs: vec![("a".to_string(), vec![])] });
}

#[test]
fn poll_with_no_keys_returns_empty_ok() {
    let mut h = Handler::new();
    let r = h.process(Request::Poll { offsets: vec![] });
    assert_eq!(r, Response::PollOk { msgs: vec![] });
}

#[test]
fn commit_offsets_batch_last_write_wins() {
    let mut h = Handler::new();
    let r = h.process(Request::CommitOffsets {
        offsets: vec![("k".to_string(), 1), ("k".to_string(), 9)],
    });
    assert_eq!(r, Response::CommitOffsetsOk);
    let r2 = h.process(Request::ListCommittedOffsets { keys: vec!["k".to_string()] });
    assert_eq!(
        r2,
        Response::ListCommittedOffsetsOk { offsets: vec![("k".to_string(), 9)] }
    );
}

#[test]
fn add_message_assigns_dense_offsets() {
    let mut h = Handler::new();
    assert_eq!(h.add_message("k".to_string(), 5), 0);
    assert_eq!(h.add_message("k".to_string(), 6), 1);
}
