//! The log store: one append-only log per string key, plus a per-key
//! committed-offset marker that is tracked independently of the log.
//!
//! The abstract state of a store is a [`StoreView`]: a map from key to the
//! sequence of appended values, next to a map from key to the last committed
//! offset. A key appears in `logs` only once something has been appended to
//! it, and in `commits` only once an offset has been committed for it; the
//! two domains are deliberately independent, so a bare committed-offset
//! marker never creates a log and never makes a ranged read succeed.

use vstd::prelude::*;

verus! {

/// Why a ranged read can fail.
#[derive(Clone, Copy, Debug, PartialEq, Eq, Structural)]
pub enum StoreError {
    /// The key has never been appended to.
    KeyNotFound,
    /// The start offset lies strictly beyond the current length of the log.
    InvalidOffset,
}

/// The abstract state of a [`LogStore`].
///
/// `logs` maps each key that has been appended to onto the values appended
/// so far, in order; the entry at position `i` carries offset `i`. `commits`
/// maps each key that has been committed for onto the offset committed last.
#[verifier::ext_equal]
pub struct StoreView {
    pub logs: Map<Seq<char>, Seq<u64>>,
    pub commits: Map<Seq<char>, usize>,
}

impl StoreView {
    /// The store that has seen no appends and no commits.
    pub open spec fn empty() -> StoreView {
        StoreView { logs: Map::empty(), commits: Map::empty() }
    }

    /// The log of `k`: the values appended so far, empty for a fresh key.
    pub open spec fn log_at(self, k: Seq<char>) -> Seq<u64> {
        if self.logs.contains_key(k) {
            self.logs[k]
        } else {
            Seq::empty()
        }
    }
}

/// The store after `append(k, v)`: the log of `k` is extended by `v` (and
/// created by that extension if `k` is fresh); commits are untouched.
pub open spec fn append_step(s: StoreView, k: Seq<char>, v: u64) -> StoreView {
    StoreView { logs: s.logs.insert(k, s.log_at(k).push(v)), commits: s.commits }
}

/// The offset that `append` assigns to the next value of `k`: the current
/// length of `k`'s log, `0` for a fresh key.
pub open spec fn append_offset(s: StoreView, k: Seq<char>) -> int {
    s.log_at(k).len() as int
}

/// The entries of `log` with offset at least `start`, each paired with its
/// offset, in ascending offset order.
pub open spec fn entries_from(log: Seq<u64>, start: int) -> Seq<(usize, u64)> {
    Seq::new((log.len() - start) as nat, |i: int| ((start + i) as usize, log[start + i]))
}

/// What a ranged read returns: `KeyNotFound` for a key that has never been
/// appended to, `InvalidOffset` for a start offset strictly beyond the log's
/// length, and otherwise every entry from `start` on — an empty sequence
/// when `start` equals the length ("poll caught up" is not an error).
pub open spec fn read_result(s: StoreView, k: Seq<char>, start: usize) -> Result<
    Seq<(usize, u64)>,
    StoreError,
> {
    if !s.logs.contains_key(k) {
        Err(StoreError::KeyNotFound)
    } else if start > s.logs[k].len() {
        Err(StoreError::InvalidOffset)
    } else {
        Ok(entries_from(s.logs[k], start as int))
    }
}

/// The store after `commit(k, offset)`: last write wins, logs are untouched,
/// and no log is created for `k`.
pub open spec fn commit_step(s: StoreView, k: Seq<char>, offset: usize) -> StoreView {
    StoreView { logs: s.logs, commits: s.commits.insert(k, offset) }
}

/// What a committed-offset lookup returns: the offset committed last for
/// `k`, or `0` if `k` has never been committed for.
pub open spec fn committed_result(s: StoreView, k: Seq<char>) -> usize {
    if s.commits.contains_key(k) {
        s.commits[k]
    } else {
        0
    }
}

/// One key's concrete state: its appended values and, if a commit has
/// happened, the offset committed last. A key that has only been committed
/// for is held as an entry with no messages — a bare marker.
struct StoreEntry {
    key: String,
    committed: Option<usize>,
    messages: Vec<u64>,
}

/// A per-key append-only log store with committed-offset tracking.
///
/// Keys are created lazily by the first append; a commit for an unknown key
/// records a bare marker and never creates a log. Offsets within a key are
/// dense and zero-based. The store lives entirely in memory.
pub struct LogStore {
    entries: Vec<StoreEntry>,
}

spec fn has_key(s: Seq<StoreEntry>, k: Seq<char>) -> bool {
    exists|i: int| 0 <= i < s.len() && s[i].key@ == k
}

spec fn idx_of(s: Seq<StoreEntry>, k: Seq<char>) -> int {
    choose|i: int| 0 <= i < s.len() && s[i].key@ == k
}

spec fn keys_unique(s: Seq<StoreEntry>) -> bool {
    forall|i: int, j: int| 0 <= i < j < s.len() ==> s[i].key@ != s[j].key@
}

spec fn logs_of(s: Seq<StoreEntry>) -> Map<Seq<char>, Seq<u64>> {
    Map::new(
        |k: Seq<char>| has_key(s, k) && s[idx_of(s, k)].messages@.len() > 0,
        |k: Seq<char>| s[idx_of(s, k)].messages@,
    )
}

spec fn commits_of(s: Seq<StoreEntry>) -> Map<Seq<char>, usize> {
    Map::new(
        |k: Seq<char>| has_key(s, k) && s[idx_of(s, k)].committed is Some,
        |k: Seq<char>| s[idx_of(s, k)].committed->Some_0,
    )
}

spec fn view_of(s: Seq<StoreEntry>) -> StoreView {
    StoreView { logs: logs_of(s), commits: commits_of(s) }
}

/// With unique keys, the entry found at `i` is the one the view speaks of.
proof fn lemma_idx(s: Seq<StoreEntry>, i: int)
    requires
        keys_unique(s),
        0 <= i < s.len(),
    ensures
        has_key(s, s[i].key@),
        idx_of(s, s[i].key@) == i,
{
    assert(has_key(s, s[i].key@));
    let j = idx_of(s, s[i].key@);
    if j != i {
        assert(s[i].key@ != s[j].key@);
    }
}

/// Ties entry `i` to what the view maps its key to.
proof fn lemma_view_lookup(s: Seq<StoreEntry>, i: int)
    requires
        keys_unique(s),
        0 <= i < s.len(),
    ensures
        logs_of(s).contains_key(s[i].key@) == (s[i].messages@.len() > 0),
        s[i].messages@.len() > 0 ==> logs_of(s)[s[i].key@] == s[i].messages@,
        commits_of(s).contains_key(s[i].key@) == (s[i].committed is Some),
        s[i].committed is Some ==> commits_of(s)[s[i].key@] == s[i].committed->Some_0,
{
    lemma_idx(s, i);
}

/// A key under no entry is in neither map of the view.
proof fn lemma_view_absent(s: Seq<StoreEntry>, k: Seq<char>)
    requires
        !has_key(s, k),
    ensures
        !logs_of(s).contains_key(k),
        !commits_of(s).contains_key(k),
{
}

/// Replacing entry `i` by one with the same key rewrites exactly that key's
/// image in the view and leaves every other key alone.
proof fn lemma_view_update(s: Seq<StoreEntry>, i: int, e2: StoreEntry)
    requires
        keys_unique(s),
        0 <= i < s.len(),
        e2.key@ == s[i].key@,
    ensures
        keys_unique(s.update(i, e2)),
        logs_of(s.update(i, e2)) == (if e2.messages@.len() > 0 {
            logs_of(s).insert(e2.key@, e2.messages@)
        } else {
            logs_of(s).remove(e2.key@)
        }),
        commits_of(s.update(i, e2)) == (match e2.committed {
            Some(o) => commits_of(s).insert(e2.key@, o),
            None => commits_of(s).remove(e2.key@),
        }),
{
    let s2 = s.update(i, e2);
    assert(forall|j: int| 0 <= j < s.len() ==> s2[j].key@ == s[j].key@);
    assert(keys_unique(s2));
    assert forall|k: Seq<char>| true implies {
        &&& has_key(s2, k) == has_key(s, k)
        &&& (has_key(s, k) ==> idx_of(s2, k) == idx_of(s, k))
    } by {
        if has_key(s, k) {
            let j = idx_of(s, k);
            assert(0 <= j < s.len() && s[j].key@ == k);
            assert(s2[j].key@ == k);
            lemma_idx(s2, j);
            lemma_idx(s, j);
        }
        if has_key(s2, k) {
            let j = idx_of(s2, k);
            assert(0 <= j < s.len() && s2[j].key@ == k);
            assert(s[j].key@ == k);
            assert(has_key(s, k));
        }
    }
    lemma_idx(s, i);
    lemma_idx(s2, i);
    if e2.messages@.len() > 0 {
        assert(logs_of(s2) =~= logs_of(s).insert(e2.key@, e2.messages@));
    } else {
        assert(logs_of(s2) =~= logs_of(s).remove(e2.key@));
    }
    match e2.committed {
        Some(o) => {
            assert(commits_of(s2) =~= commits_of(s).insert(e2.key@, o));
        },
        None => {
            assert(commits_of(s2) =~= commits_of(s).remove(e2.key@));
        },
    }
}

/// Appending an entry under a fresh key adds exactly that key's image to the
/// view and leaves every other key alone.
proof fn lemma_view_push(s: Seq<StoreEntry>, e: StoreEntry)
    requires
        keys_unique(s),
        !has_key(s, e.key@),
    ensures
        keys_unique(s.push(e)),
        logs_of(s.push(e)) == (if e.messages@.len() > 0 {
            logs_of(s).insert(e.key@, e.messages@)
        } else {
            logs_of(s)
        }),
        commits_of(s.push(e)) == (match e.committed {
            Some(o) => commits_of(s).insert(e.key@, o),
            None => commits_of(s),
        }),
{
    let s2 = s.push(e);
    assert(forall|j: int| 0 <= j < s.len() ==> s2[j].key@ == s[j].key@);
    assert(s2[s.len() as int].key@ == e.key@);
    assert forall|i: int, j: int| 0 <= i < j < s2.len() implies s2[i].key@ != s2[j].key@ by {
        if j < s.len() {
            assert(s[i].key@ != s[j].key@);
        } else {
            assert(s2[j].key@ == e.key@);
            assert(s2[i].key@ == s[i].key@);
            if s[i].key@ == e.key@ {
                assert(has_key(s, e.key@));
            }
        }
    }
    assert forall|k: Seq<char>| true implies {
        &&& (k != e.key@ ==> has_key(s2, k) == has_key(s, k))
        &&& (k != e.key@ && has_key(s, k) ==> idx_of(s2, k) == idx_of(s, k))
        &&& (k == e.key@ ==> has_key(s2, k) && idx_of(s2, k) == s.len() as int)
    } by {
        if k == e.key@ {
            lemma_idx(s2, s.len() as int);
        } else {
            if has_key(s, k) {
                let j = idx_of(s, k);
                assert(0 <= j < s.len() && s[j].key@ == k);
                assert(s2[j].key@ == k);
                lemma_idx(s2, j);
                lemma_idx(s, j);
            }
            if has_key(s2, k) {
                let j = idx_of(s2, k);
                assert(0 <= j < s2.len() && s2[j].key@ == k);
                assert(j < s.len());
                assert(has_key(s, k));
            }
        }
    }
    if e.messages@.len() > 0 {
        assert(logs_of(s2) =~= logs_of(s).insert(e.key@, e.messages@));
    } else {
        assert(logs_of(s2) =~= logs_of(s));
    }
    match e.committed {
        Some(o) => {
            assert(commits_of(s2) =~= commits_of(s).insert(e.key@, o));
        },
        None => {
            assert(commits_of(s2) =~= commits_of(s));
        },
    }
}

impl View for LogStore {
    type V = StoreView;

    closed spec fn view(&self) -> StoreView {
        view_of(self.entries@)
    }
}

impl LogStore {
    #[verifier::type_invariant]
    spec fn wf(self) -> bool {
        keys_unique(self.entries@)
    }

    /// A store that has seen no appends and no commits.
    pub fn new() -> (s: LogStore)
        ensures
            s@ == StoreView::empty(),
    {
        let s = LogStore { entries: Vec::new() };
        proof {
            assert(s@.logs =~= Map::<Seq<char>, Seq<u64>>::empty());
            assert(s@.commits =~= Map::<Seq<char>, usize>::empty());
            assert(s@ =~= StoreView::empty());
        }
        s
    }

    /// The position of `key`'s entry, if the store holds one.
    fn find_index(&self, key: &String) -> (r: Option<usize>)
        ensures
            match r {
                Some(i) => 0 <= i < self.entries@.len() && self.entries@[i as int].key@ == key@,
                None => !has_key(self.entries@, key@),
            },
    {
        let mut i: usize = 0;
        while i < self.entries.len()
            invariant
                i <= self.entries@.len(),
                forall|j: int| 0 <= j < i ==> self.entries@[j].key@ != key@,
            decreases self.entries@.len() - i,
        {
            if self.entries[i].key == *key {
                return Some(i);
            }
            i = i + 1;
        }
        None
    }

    /// Appends `msg` to `key`'s log, creating the log if `key` is fresh, and
    /// returns the offset assigned to the new entry: the length the log had
    /// before the call, `0` for a fresh key. Never fails.
    pub fn append(&mut self, key: String, msg: u64) -> (offset: usize)
        ensures
            final(self)@ == append_step(old(self)@, key@, msg),
            offset as int == append_offset(old(self)@, key@),
    {
        proof {
            use_type_invariant(&*self);
        }
        let idx = self.find_index(&key);
        let mut entries: Vec<StoreEntry> = Vec::new();
        std::mem::swap(&mut entries, &mut self.entries);
        let ghost s0 = entries@;
        let offset: usize;
        match idx {
            Some(i) => {
                let mut e = entries.remove(i);
                offset = e.messages.len();
                e.messages.push(msg);
                let ghost e2 = e;
                entries.insert(i, e);
                proof {
                    assert(entries@ =~= s0.update(i as int, e2));
                    lemma_view_update(s0, i as int, e2);
                    lemma_view_lookup(s0, i as int);
                    if s0[i as int].messages@.len() == 0 {
                        assert(s0[i as int].messages@ =~= Seq::<u64>::empty());
                    }
                    assert(e2.messages@ == view_of(s0).log_at(key@).push(msg));
                    match e2.committed {
                        Some(o) => {
                            assert(commits_of(s0).insert(key@, o) =~= commits_of(s0));
                        },
                        None => {
                            assert(commits_of(s0).remove(key@) =~= commits_of(s0));
                        },
                    }
                    assert(view_of(entries@) =~= append_step(view_of(s0), key@, msg));
                }
            },
            None => {
                offset = 0;
                let mut messages: Vec<u64> = Vec::new();
                messages.push(msg);
                let e = StoreEntry { key, committed: None, messages };
                let ghost e2 = e;
                entries.push(e);
                proof {
                    lemma_view_push(s0, e2);
                    lemma_view_absent(s0, e2.key@);
                    assert(e2.messages@ =~= view_of(s0).log_at(e2.key@).push(msg));
                    assert(view_of(entries@) =~= append_step(view_of(s0), e2.key@, msg));
                }
            },
        }
        self.entries = entries;
        offset
    }

    /// Returns every entry of `key`'s log with offset at least
    /// `start_offset`, paired with its offset, in ascending order.
    ///
    /// Fails with `KeyNotFound` if `key` has never been appended to, and
    /// with `InvalidOffset` if `start_offset` lies strictly beyond the log's
    /// length; `start_offset` equal to the length yields `Ok` of an empty
    /// vector.
    pub fn read_from(&self, key: &String, start_offset: usize) -> (r: Result<
        Vec<(usize, u64)>,
        StoreError,
    >)
        ensures
            match r {
                Ok(v) => read_result(self@, key@, start_offset) == Ok::<
                    Seq<(usize, u64)>,
                    StoreError,
                >(v@),
                Err(e) => read_result(self@, key@, start_offset) == Err::<
                    Seq<(usize, u64)>,
                    StoreError,
                >(e),
            },
    {
        proof {
            use_type_invariant(&*self);
        }
        match self.find_index(key) {
            None => {
                proof {
                    lemma_view_absent(self.entries@, key@);
                }
                Err(StoreError::KeyNotFound)
            },
            Some(i) => {
                proof {
                    lemma_view_lookup(self.entries@, i as int);
                }
                let n = self.entries[i].messages.len();
                if n == 0 {
                    Err(StoreError::KeyNotFound)
                } else if start_offset > n {
                    Err(StoreError::InvalidOffset)
                } else {
                    let ghost log = self.entries@[i as int].messages@;
                    let mut result: Vec<(usize, u64)> = Vec::new();
                    let mut j: usize = start_offset;
                    while j < n
                        invariant
                            start_offset <= j <= n,
                            n == log.len(),
                            (i as int) < self.entries@.len(),
                            self.entries@[i as int].messages@ == log,
                            result@ == entries_from(log, start_offset as int).take(
                                j - start_offset,
                            ),
                        decreases n - j,
                    {
                        result.push((j, self.entries[i].messages[j]));
                        j = j + 1;
                        proof {
                            assert(entries_from(log, start_offset as int).take(j - start_offset)
                                =~= entries_from(log, start_offset as int).take(
                                j - 1 - start_offset,
                            ).push(((j - 1) as usize, log[j - 1])));
                        }
                    }
                    proof {
                        assert(entries_from(log, start_offset as int).take(n - start_offset)
                            =~= entries_from(log, start_offset as int));
                    }
                    Ok(result)
                }
            },
        }
    }

    /// Records `offset` as the committed offset for `key`, overwriting any
    /// earlier value: last write wins, and no relation to the log's length
    /// is enforced. A commit for a key that has never been appended to
    /// leaves a bare marker and creates no log. Never fails.
    pub fn commit(&mut self, key: String, offset: usize)
        ensures
            final(self)@ == commit_step(old(self)@, key@, offset),
    {
        proof {
            use_type_invariant(&*self);
        }
        let idx = self.find_index(&key);
        let mut entries: Vec<StoreEntry> = Vec::new();
        std::mem::swap(&mut entries, &mut self.entries);
        let ghost s0 = entries@;
        match idx {
            Some(i) => {
                let mut e = entries.remove(i);
                e.committed = Some(offset);
                let ghost e2 = e;
                entries.insert(i, e);
                proof {
                    assert(entries@ =~= s0.update(i as int, e2));
                    lemma_view_update(s0, i as int, e2);
                    lemma_view_lookup(s0, i as int);
                    if e2.messages@.len() > 0 {
                        assert(logs_of(s0).insert(e2.key@, e2.messages@) =~= logs_of(s0));
                    } else {
                        assert(logs_of(s0).remove(e2.key@) =~= logs_of(s0));
                    }
                    assert(view_of(entries@) =~= commit_step(view_of(s0), key@, offset));
                }
            },
            None => {
                let e = StoreEntry { key, committed: Some(offset), messages: Vec::new() };
                let ghost e2 = e;
                entries.push(e);
                proof {
                    lemma_view_push(s0, e2);
                    lemma_view_absent(s0, e2.key@);
                    assert(view_of(entries@) =~= commit_step(view_of(s0), e2.key@, offset));
                }
            },
        }
        self.entries = entries;
    }

    /// Returns the offset committed last for `key`, or `0` if `key` has
    /// never been committed for. Looks nothing up beyond that: an unknown
    /// key gets no log and no marker (the receiver is shared). Never fails.
    pub fn committed_offset(&self, key: &String) -> (r: usize)
        ensures
            r == committed_result(self@, key@),
    {
        proof {
            use_type_invariant(&*self);
        }
        match self.find_index(key) {
            None => {
                proof {
                    lemma_view_absent(self.entries@, key@);
                }
                0
            },
            Some(i) => {
                proof {
                    lemma_view_lookup(self.entries@, i as int);
                }
                match self.entries[i].committed {
                    Some(o) => o,
                    None => 0,
                }
            },
        }
    }
}

} // verus!
