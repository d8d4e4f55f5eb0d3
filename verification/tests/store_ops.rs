use commit_log::store::{LogStore, StoreError};

#[test]
fn read_from_zero_returns_all_appended_values() {
    let mut st = LogStore::new();
    st.append("k".to_string(), 10);
    st.append("k".to_string(), 20);
    st.append("k".to_string(), 30);
    let r = st.read_from(&"k".to_string(), 0);
    assert_eq!(r, Ok(vec![(0, 10), (1, 20), (2, 30)]));
}

#[test]
fn append_offsets_are_dense_per_key_despite_interleaving() {
    let mut st = LogStore::new();
    assert_eq!(st.append("a".to_string(), 1), 0);
    assert_eq!(st.append("b".to_string(), 2), 0);
    assert_eq!(st.append("a".to_string(), 3), 1);
    assert_eq!(st.append("b".to_string(), 4), 1);
    assert_eq!(st.append("a".to_string(), 5), 2);
    assert_eq!(st.append("b".to_string(), 6), 2);
}

#[test]
fn read_from_middle_offset_returns_tail() {
    let mut st = LogStore::new();
    st.append("k".to_string(), 10);
    st.append("k".to_string(), 20);
    st.append("k".to_string(), 30);
    let r = st.read_from(&"k".to_string(), 1);
    assert_eq!(r, Ok(vec![(1, 20), (2, 30)]));
}

#[test]
fn read_at_current_length_returns_empty() {
    let mut st = LogStore::new();
    st.append("k".to_string(), 10);
    st.append("k".to_string(), 20);
    let r = st.read_from(&"k".to_string(), 2);
    assert_eq!(r, Ok(vec![]));
}

#[test]
fn read_past_current_length_is_invalid_offset() {
    let mut st = LogStore::new();
    st.append("k".to_string(), 10);
    st.append("k".to_string(), 20);
    let r = st.read_from(&"k".to_string(), 3);
    assert_eq!(r, Err(StoreError::InvalidOffset));
}

#[test]
fn read_unknown_key_is_key_not_found() {
    let st = LogStore::new();
    let r = st.read_from(&"nope".to_string(), 0);
    assert_eq!(r, Err(StoreError::KeyNotFound));
}

#[test]
fn commit_then_lookup_and_overwrite() {
    let mut st = LogStore::new();
    st.append("k".to_string(), 10);
    st.commit("k".to_string(), 7);
    assert_eq!(st.committed_offset(&"k".to_string()), 7);
    st.commit("k".to_string(), 3);
    assert_eq!(st.committed_offset(&"k".to_string()), 3);
}

#[test]
fn lookup_unknown_key_is_zero_and_creates_nothing() {
    let st = LogStore::new();
    assert_eq!(st.committed_offset(&"ghost".to_string()), 0);
    assert_eq!(st.read_from(&"ghost".to_string(), 0), Err(StoreError::KeyNotFound));
}

#[test]
fn commit_on_unappended_key_leaves_bare_marker() {
    let mut st = LogStore::new();
    st.commit("bare".to_string(), 9);
    assert_eq!(st.committed_offset(&"bare".to_string()), 9);
    assert_eq!(st.read_from(&"bare".to_string(), 0), Err(StoreError::KeyNotFound));
    assert_eq!(st.append("bare".to_string(), 42), 0);
    assert_eq!(st.read_from(&"bare".to_string(), 0), Ok(vec![(0, 42)]));
    assert_eq!(st.committed_offset(&"bare".to_string()), 9);
}

#[test]
fn commit_beyond_log_length_is_allowed() {
    let mut st = LogStore::new();
    st.append("k".to_string(), 10);
    st.commit("k".to_string(), 100);
    assert_eq!(st.committed_offset(&"k".to_string()), 100);
}

#[test]
fn logs_of_distinct_keys_are_independent() {
    let mut st = LogStore::new();
    st.append("a".to_string(), 1);
    st.append("b".to_string(), 2);
    st.commit("a".to_string(), 1);
    assert_eq!(st.read_from(&"a".to_string(), 0), Ok(vec![(0, 1)]));
    assert_eq!(st.read_from(&"b".to_string(), 0), Ok(vec![(0, 2)]));
    assert_eq!(st.committed_offset(&"a".to_string()), 1);
    assert_eq!(st.committed_offset(&"b".to_string()), 0);
}
