//! The request dispatcher: maps each decoded workload request onto log
//! store calls and assembles the reply.
//!
//! The dispatcher itself is stateless between requests; all state lives in
//! the store it owns. A `Poll` over several keys is all-or-nothing: the
//! first requested pair whose read fails turns the whole request into an
//! error reply naming that key and the reason, and the store is left
//! untouched — a single bad key must never take the node down.

use vstd::prelude::*;
use crate::store::{
    LogStore, StoreError, StoreView, append_offset, append_step, commit_step, committed_result,
    read_result,
};

verus! {

/// One decoded workload request, handed in by the external runtime with
/// envelope, correlation and encoding already stripped off.
#[derive(Debug, PartialEq, Eq)]
pub enum Request {
    /// Append `msg` to `key`'s log.
    Send { key: String, msg: u64 },
    /// For each `(key, start)` pair, read `key`'s log from offset `start`.
    Poll { offsets: Vec<(String, usize)> },
    /// For each `(key, offset)` pair, record `offset` as committed.
    CommitOffsets { offsets: Vec<(String, usize)> },
    /// Look up the committed offset of each named key.
    ListCommittedOffsets { keys: Vec<String> },
}

/// The reply built for one request.
#[derive(Debug, PartialEq, Eq)]
pub enum Response {
    /// The offset assigned to the value just appended.
    SendOk { offset: usize },
    /// Per requested key, the entries read, as `(offset, value)` pairs.
    PollOk { msgs: Vec<(String, Vec<(usize, u64)>)> },
    /// A batch of commits has been recorded; there is no payload.
    CommitOffsetsOk,
    /// Per requested key, its committed offset (`0` if never committed).
    ListCommittedOffsetsOk { offsets: Vec<(String, usize)> },
    /// The whole request failed: `kind` names the reason and `key` the
    /// offending key. Only `Poll` can produce this.
    Error { kind: StoreError, key: String },
}

/// A sequence of `(key, offset)` pairs, keys taken to their character
/// sequences.
pub open spec fn pairs_view(ps: Seq<(String, usize)>) -> Seq<(Seq<char>, usize)> {
    ps.map_values(|p: (String, usize)| (p.0@, p.1))
}

/// A sequence of keys, taken to their character sequences.
pub open spec fn keys_view(ks: Seq<String>) -> Seq<Seq<char>> {
    ks.map_values(|k: String| k@)
}

/// A built `PollOk` payload, keys and entry vectors taken to their views.
pub open spec fn msgs_view(ms: Seq<(String, Vec<(usize, u64)>)>) -> Seq<
    (Seq<char>, Seq<(usize, u64)>),
> {
    ms.map_values(|p: (String, Vec<(usize, u64)>)| (p.0@, p.1@))
}

/// The store after committing every pair of `ps`, in order; a later pair
/// for the same key overwrites an earlier one.
pub open spec fn commit_many(s: StoreView, ps: Seq<(Seq<char>, usize)>) -> StoreView
    decreases ps.len(),
{
    if ps.len() == 0 {
        s
    } else {
        commit_step(commit_many(s, ps.drop_last()), ps.last().0, ps.last().1)
    }
}

/// What a `Poll` over the pairs of `ps` yields: the reads of all pairs in
/// order if every one succeeds, else the key and kind of the first pair
/// whose read fails.
pub open spec fn poll_result(s: StoreView, ps: Seq<(Seq<char>, usize)>) -> Result<
    Seq<(Seq<char>, Seq<(usize, u64)>)>,
    (Seq<char>, StoreError),
>
    decreases ps.len(),
{
    if ps.len() == 0 {
        Ok(Seq::empty())
    } else {
        match read_result(s, ps.first().0, ps.first().1) {
            Err(e) => Err((ps.first().0, e)),
            Ok(es) => match poll_result(s, ps.drop_first()) {
                Err(ke) => Err(ke),
                Ok(rest) => Ok(seq![(ps.first().0, es)] + rest),
            },
        }
    }
}

/// What a `ListCommittedOffsets` over `ks` yields: each key paired with its
/// committed offset, in the order the keys were given.
pub open spec fn list_committed(s: StoreView, ks: Seq<Seq<char>>) -> Seq<(Seq<char>, usize)> {
    Seq::new(ks.len(), |i: int| (ks[i], committed_result(s, ks[i])))
}

/// When every requested read succeeds, a poll succeeds and returns the
/// reads in request order.
proof fn lemma_poll_all_ok(s: StoreView, ps: Seq<(Seq<char>, usize)>)
    requires
        forall|j: int| 0 <= j < ps.len() ==> read_result(s, ps[j].0, ps[j].1) is Ok,
    ensures
        poll_result(s, ps) is Ok,
        poll_result(s, ps)->Ok_0.len() == ps.len(),
        forall|j: int|
            0 <= j < ps.len() ==> poll_result(s, ps)->Ok_0[j] == ((
                ps[j].0,
                read_result(s, ps[j].0, ps[j].1)->Ok_0,
            )),
    decreases ps.len(),
{
    if ps.len() > 0 {
        assert(ps.first() == ps[0]);
        assert(forall|j: int| 0 <= j < ps.drop_first().len() ==> ps.drop_first()[j] == ps[j + 1]);
        lemma_poll_all_ok(s, ps.drop_first());
        let es0 = read_result(s, ps[0].0, ps[0].1)->Ok_0;
        let rest = poll_result(s, ps.drop_first())->Ok_0;
        assert(poll_result(s, ps)->Ok_0 == seq![(ps[0].0, es0)] + rest);
        assert forall|j: int| 0 <= j < ps.len() implies poll_result(s, ps)->Ok_0[j] == ((
            ps[j].0,
            read_result(s, ps[j].0, ps[j].1)->Ok_0,
        )) by {
            if j > 0 {
                assert(ps.drop_first()[j - 1] == ps[j]);
                assert((seq![(ps[0].0, es0)] + rest)[j] == rest[j - 1]);
            }
        }
    }
}

/// When the reads of the first `i` pairs succeed and the read of pair `i`
/// fails, a poll fails with pair `i`'s key and kind.
proof fn lemma_poll_first_err(s: StoreView, ps: Seq<(Seq<char>, usize)>, i: int)
    requires
        0 <= i < ps.len(),
        forall|j: int| 0 <= j < i ==> read_result(s, ps[j].0, ps[j].1) is Ok,
        read_result(s, ps[i].0, ps[i].1) is Err,
    ensures
        poll_result(s, ps) == Err::<Seq<(Seq<char>, Seq<(usize, u64)>)>, (Seq<char>, StoreError)>((
            ps[i].0,
            read_result(s, ps[i].0, ps[i].1)->Err_0,
        )),
    decreases i,
{
    assert(ps.first() == ps[0]);
    if i > 0 {
        assert(forall|j: int| 0 <= j < ps.drop_first().len() ==> ps.drop_first()[j] == ps[j + 1]);
        lemma_poll_first_err(s, ps.drop_first(), i - 1);
    }
}

/// The node-side handler: a dispatcher over the log store it owns. The
/// external runtime decodes each inbound request into a [`Request`], hands
/// it to [`Handler::process`], and encodes the returned [`Response`].
pub struct Handler {
    store: LogStore,
}

impl View for Handler {
    type V = StoreView;

    closed spec fn view(&self) -> StoreView {
        self.store@
    }
}

impl Handler {
    /// A handler over a store that has seen no appends and no commits.
    pub fn new() -> (h: Handler)
        ensures
            h@ == StoreView::empty(),
    {
        Handler { store: LogStore::new() }
    }

    /// Appends `msg` to `key`'s log and returns the assigned offset; the
    /// store-level operation behind `Send`.
    pub fn add_message(&mut self, key: String, msg: u64) -> (offset: usize)
        ensures
            final(self)@ == append_step(old(self)@, key@, msg),
            offset as int == append_offset(old(self)@, key@),
    {
        self.store.append(key, msg)
    }

    /// Handles one decoded request: performs its store calls and builds the
    /// reply. Only `Poll` can fail, and it fails as a whole, naming the
    /// first offending key; every other request leaves a success reply and
    /// the process alive.
    pub fn process(&mut self, req: Request) -> (resp: Response)
        ensures
            match req {
                Request::Send { key, msg } => {
                    &&& final(self)@ == append_step(old(self)@, key@, msg)
                    &&& resp matches Response::SendOk { offset } && offset as int == append_offset(
                        old(self)@,
                        key@,
                    )
                },
                Request::Poll { offsets } => {
                    &&& final(self)@ == old(self)@
                    &&& (match poll_result(old(self)@, pairs_view(offsets@)) {
                        Ok(ms) => resp matches Response::PollOk { msgs } && msgs_view(msgs@) == ms,
                        Err(ke) => resp matches Response::Error { kind, key } && key@ == ke.0
                            && kind == ke.1,
                    })
                },
                Request::CommitOffsets { offsets } => {
                    &&& final(self)@ == commit_many(old(self)@, pairs_view(offsets@))
                    &&& resp == Response::CommitOffsetsOk
                },
                Request::ListCommittedOffsets { keys } => {
                    &&& final(self)@ == old(self)@
                    &&& resp matches Response::ListCommittedOffsetsOk { offsets } && pairs_view(
                        offsets@,
                    ) == list_committed(old(self)@, keys_view(keys@))
                },
            },
    {
        match req {
            Request::Send { key, msg } => {
                let offset = self.store.append(key, msg);
                Response::SendOk { offset }
            },
            Request::Poll { offsets } => {
                let ghost ps = pairs_view(offsets@);
                let mut msgs: Vec<(String, Vec<(usize, u64)>)> = Vec::new();
                let mut i: usize = 0;
                while i < offsets.len()
                    invariant
                        req == (Request::Poll { offsets }),
                        i <= offsets.len(),
                        ps == pairs_view(offsets@),
                        self@ == old(self)@,
                        msgs@.len() == i,
                        forall|j: int|
                            0 <= j < i ==> read_result(old(self)@, ps[j].0, ps[j].1) is Ok,
                        forall|j: int|
                            0 <= j < i ==> msgs@[j].0@ == ps[j].0 && msgs@[j].1@ == read_result(
                                old(self)@,
                                ps[j].0,
                                ps[j].1,
                            )->Ok_0,
                    decreases offsets.len() - i,
                {
                    let key = offsets[i].0.clone();
                    let start = offsets[i].1;
                    match self.store.read_from(&key, start) {
                        Ok(v) => {
                            msgs.push((key, v));
                            i = i + 1;
                        },
                        Err(e) => {
                            proof {
                                assert(ps[i as int] == ((offsets@[i as int].0@, offsets@[
                                    i as int
                                ].1)));
                                assert(read_result(old(self)@, ps[i as int].0, ps[i as int].1)
                                    == Err::<Seq<(usize, u64)>, StoreError>(e));
                                lemma_poll_first_err(old(self)@, ps, i as int);
                            }
                            return Response::Error { kind: e, key };
                        },
                    }
                }
                proof {
                    lemma_poll_all_ok(old(self)@, ps);
                    assert(msgs_view(msgs@) =~= poll_result(old(self)@, ps)->Ok_0);
                }
                Response::PollOk { msgs }
            },
            Request::CommitOffsets { offsets } => {
                let ghost ps = pairs_view(offsets@);
                let mut i: usize = 0;
                while i < offsets.len()
                    invariant
                        i <= offsets.len(),
                        ps == pairs_view(offsets@),
                        self@ == commit_many(old(self)@, ps.take(i as int)),
                    decreases offsets.len() - i,
                {
                    let key = offsets[i].0.clone();
                    let off = offsets[i].1;
                    proof {
                        assert(ps.take(i as int + 1).drop_last() =~= ps.take(i as int));
                        assert(ps.take(i as int + 1).last() == ps[i as int]);
                    }
                    self.store.commit(key, off);
                    i = i + 1;
                }
                proof {
                    assert(ps.take(offsets@.len() as int) =~= ps);
                }
                Response::CommitOffsetsOk
            },
            Request::ListCommittedOffsets { keys } => {
                let ghost ks = keys_view(keys@);
                let mut offsets: Vec<(String, usize)> = Vec::new();
                let mut i: usize = 0;
                while i < keys.len()
                    invariant
                        i <= keys.len(),
                        ks == keys_view(keys@),
                        self@ == old(self)@,
                        offsets@.len() == i,
                        forall|j: int|
                            0 <= j < i ==> offsets@[j].0@ == ks[j] && offsets@[j].1
                                == committed_result(old(self)@, ks[j]),
                    decreases keys.len() - i,
                {
                    let key = keys[i].clone();
                    let off = self.store.committed_offset(&key);
                    offsets.push((key, off));
                    i = i + 1;
                }
                proof {
                    assert(pairs_view(offsets@) =~= list_committed(old(self)@, ks));
                }
                Response::ListCommittedOffsetsOk { offsets }
            },
        }
    }
}

} // verus!
