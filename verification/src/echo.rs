//! State of the companion echo/broadcast node: the set of broadcast
//! message ids seen so far, and the names of the neighbouring nodes as
//! handed in by the topology request. Echoing and id generation carry no
//! state and stay with the external runtime.

use vstd::prelude::*;

verus! {

/// A sequence of node names, taken to their character sequences.
pub open spec fn names_view(ns: Seq<String>) -> Seq<Seq<char>> {
    ns.map_values(|n: String| n@)
}

/// The node-side state of the echo/broadcast service.
pub struct Handler {
    message_ids: Vec<u64>,
    neighbors: Vec<String>,
}

fn contains_id(ids: &Vec<u64>, x: u64) -> (r: bool)
    ensures
        r == ids@.contains(x),
{
    let mut i: usize = 0;
    while i < ids.len()
        invariant
            i <= ids@.len(),
            forall|j: int| 0 <= j < i ==> ids@[j] != x,
        decreases ids@.len() - i,
    {
        if ids[i] == x {
            return true;
        }
        i = i + 1;
    }
    proof {
        if ids@.contains(x) {
            let j = choose|j: int| 0 <= j < ids@.len() && ids@[j] == x;
            assert(false);
        }
    }
    false
}

impl Handler {
    #[verifier::type_invariant]
    spec fn wf(self) -> bool {
        self.message_ids@.no_duplicates()
    }

    /// The set of broadcast message ids stored so far.
    pub closed spec fn messages(self) -> Set<u64> {
        self.message_ids@.to_set()
    }

    /// The neighbour names, in the order they were handed in.
    pub closed spec fn neighbor_names(self) -> Seq<Seq<char>> {
        names_view(self.neighbors@)
    }

    /// A handler that has seen no messages and knows no neighbours.
    pub fn new() -> (h: Handler)
        ensures
            h.messages() == Set::<u64>::empty(),
            h.neighbor_names() == Seq::<Seq<char>>::empty(),
    {
        let h = Handler { message_ids: Vec::new(), neighbors: Vec::new() };
        proof {
            assert(h.messages() =~= Set::<u64>::empty());
            assert(h.neighbor_names() =~= Seq::<Seq<char>>::empty());
        }
        h
    }

    /// Stores a broadcast message id; storing the same id a second time
    /// changes nothing.
    pub fn store_message(&mut self, message_id: u64)
        ensures
            final(self).messages() == old(self).messages().insert(message_id),
            final(self).neighbor_names() == old(self).neighbor_names(),
    {
        proof {
            use_type_invariant(&*self);
        }
        if !contains_id(&self.message_ids, message_id) {
            let mut ids: Vec<u64> = Vec::new();
            std::mem::swap(&mut ids, &mut self.message_ids);
            let ghost prev = ids@;
            ids.push(message_id);
            proof {
                assert forall|i: int, j: int| 0 <= i < j < ids@.len() implies ids@[i] != ids@[j]
                    by {
                    if j < prev.len() {
                        assert(prev[i] != prev[j]);
                    } else {
                        assert(ids@[j] == message_id);
                        if prev[i] == message_id {
                            assert(prev.contains(message_id));
                        }
                    }
                }
            }
            self.message_ids = ids;
            proof {
                assert forall|x: u64| #![auto]
                    ids@.to_set().contains(x) <==> prev.to_set().insert(message_id).contains(
                        x,
                    ) by {
                    if x == message_id {
                        assert(ids@[prev.len() as int] == message_id);
                        assert(ids@.contains(message_id));
                    } else {
                        if prev.contains(x) {
                            let i = choose|i: int| 0 <= i < prev.len() && prev[i] == x;
                            assert(ids@[i] == x);
                        }
                        if ids@.contains(x) {
                            let i = choose|i: int| 0 <= i < ids@.len() && ids@[i] == x;
                            assert(i < prev.len());
                            assert(prev[i] == x);
                        }
                    }
                }
                assert(ids@.to_set() =~= prev.to_set().insert(message_id));
            }
        } else {
            proof {
                assert(old(self).messages().insert(message_id) =~= old(self).messages());
            }
        }
    }

    /// Takes the handed-in node names over into the neighbour list,
    /// appending them in order and draining the argument.
    pub fn set_neighbors(&mut self, node_ids: &mut Vec<String>)
        ensures
            final(self).neighbor_names() == old(self).neighbor_names() + names_view(
                old(node_ids)@,
            ),
            final(node_ids)@ == Seq::<String>::empty(),
            final(self).messages() == old(self).messages(),
    {
        proof {
            use_type_invariant(&*self);
        }
        let mut ns: Vec<String> = Vec::new();
        std::mem::swap(&mut ns, &mut self.neighbors);
        ns.append(node_ids);
        self.neighbors = ns;
        proof {
            assert(names_view(self.neighbors@) =~= old(self).neighbor_names() + names_view(
                old(node_ids)@,
            ));
        }
    }

    /// The message ids stored so far: each exactly once, in some order.
    pub fn retreieve_messages(&self) -> (r: Vec<u64>)
        ensures
            r@.to_set() == self.messages(),
            r@.no_duplicates(),
    {
        proof {
            use_type_invariant(&*self);
        }
        let mut out: Vec<u64> = Vec::new();
        let mut i: usize = 0;
        while i < self.message_ids.len()
            invariant
                i <= self.message_ids@.len(),
                out@ == self.message_ids@.take(i as int),
            decreases self.message_ids@.len() - i,
        {
            out.push(self.message_ids[i]);
            i = i + 1;
            proof {
                assert(self.message_ids@.take(i as int) =~= self.message_ids@.take(i - 1).push(
                    self.message_ids@[i - 1],
                ));
            }
        }
        proof {
            assert(self.message_ids@.take(self.message_ids@.len() as int) =~= self.message_ids@);
        }
        out
    }
}

} // verus!
