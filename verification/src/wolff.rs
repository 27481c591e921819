//! Wolff cluster growth.
//!
//! A cluster update seeds one random site and grows by breadth-first
//! traversal of the exchange-neighbor graph. The machine here walks the
//! graph and owns the cluster bookkeeping; the caller decides each bond —
//! the alignment gate and the acceptance probability are numeric work on
//! the spin values it holds — and feeds the decision back. The caller then
//! reflects every cluster member once, through
//! [`crate::spins::SpinArray::apply_flips`].
//!
//! The machine's contracts pin the whole growth discipline: the cluster
//! starts as the seed alone with an empty frontier; every offered bond runs
//! from the cluster member under expansion, along the neighbor entry at the
//! machine's cursor, to a site neither in the cluster nor on the frontier;
//! a decision advances the cursor past that bond and extends the frontier
//! by exactly the accepted target or not at all; and cluster members beyond
//! the seed are taken from the frontier, in order. So every member joined
//! as the accepted target of a bond from an earlier member: the flipped
//! cluster is connected in the exchange-neighbor graph and contains the
//! seed. The traversal finishes only once the frontier has drained into
//! the cluster and the last member's neighbor list is exhausted.

use vstd::prelude::*;
use std::collections::VecDeque;
use crate::lattice::{Lattice, NeighborEntry};
use crate::spins::{contains_index, distinct_indices};

verus! {

/// `e` is one of the entries of `s`'s neighbor list.
pub open spec fn lattice_edge(lat: &Lattice, s: usize, e: NeighborEntry) -> bool {
    &&& (s as int) < lat.neighbors@.len()
    &&& exists|k: int|
        0 <= k < lat.neighbors@[s as int]@.len() && lat.neighbors@[s as int]@[k] == e
}

/// The state of one Wolff cluster update between bond decisions.
pub struct WolffCluster {
    visited: Vec<bool>,
    queue: VecDeque<usize>,
    cluster: Vec<usize>,
    site: usize,
    cursor: usize,
    pending: usize,
    awaiting: bool,
    done: bool,
}

impl WolffCluster {
    /// The sites taken into the cluster so far, in acceptance order.
    pub closed spec fn cluster_seq(&self) -> Seq<usize> {
        self.cluster@
    }

    /// The frontier: accepted sites not yet taken up for expansion, in
    /// acceptance order.
    pub closed spec fn frontier_seq(&self) -> Seq<usize> {
        self.queue@
    }

    /// The target of the bond awaiting its decision.
    pub closed spec fn pending_site(&self) -> usize {
        self.pending
    }

    /// The cluster member currently being expanded.
    pub closed spec fn current_site(&self) -> usize {
        self.site
    }

    /// The position reached in the current member's neighbor list.
    pub closed spec fn cursor_pos(&self) -> int {
        self.cursor as int
    }

    /// A bond has been offered and awaits its decision.
    pub closed spec fn is_awaiting(&self) -> bool {
        self.awaiting
    }

    /// The traversal is exhausted.
    pub closed spec fn is_done(&self) -> bool {
        self.done
    }

    /// Whether site `j` is in the cluster or on the frontier.
    spec fn in_play(&self, j: int) -> bool {
        contains_index(self.cluster@, j) || contains_index(self.queue@, j)
    }

    /// The machine's invariant against the lattice it walks.
    pub closed spec fn wf(&self, lat: &Lattice) -> bool {
        &&& self.visited@.len() == lat.size
        &&& self.cluster@.len() >= 1
        &&& distinct_indices(self.cluster@)
        &&& distinct_indices(self.queue@)
        &&& forall|k: int|
            0 <= k < self.cluster@.len() ==> (#[trigger] self.cluster@[k]) < lat.size
        &&& forall|k: int| 0 <= k < self.queue@.len() ==> (#[trigger] self.queue@[k]) < lat.size
        &&& forall|k: int, m: int|
            0 <= k < self.cluster@.len() && 0 <= m < self.queue@.len() ==> (
            #[trigger] self.cluster@[k]) != (#[trigger] self.queue@[m])
        &&& forall|j: int|
            0 <= j < lat.size ==> ((#[trigger] self.visited@[j]) <==> self.in_play(j))
        &&& !self.done ==> self.cluster@.last() == self.site && (self.site as int) < lat.size
            && self.cursor <= lat.neighbors@[self.site as int]@.len()
        &&& self.done ==> self.queue@.len() == 0 && !self.awaiting
        &&& self.awaiting ==> !self.done && (self.cursor as int) < lat.neighbors@[
            self.site as int]@.len() && self.pending == lat.neighbors@[self.site as int]@[
            self.cursor as int].site && (self.pending as int) < lat.size && !self.visited@[
            self.pending as int]
    }

    /// Seeds a cluster with one site drawn uniformly at random; the
    /// frontier starts empty.
    #[verifier::loop_isolation(false)]
    pub fn begin(lat: &Lattice, rng: &mut rand_pcg::Pcg64Mcg) -> (w: WolffCluster)
        requires
            lat.wf(),
            lat.size >= 1,
        ensures
            w.wf(lat),
            !w.is_awaiting(),
            !w.is_done(),
            w.cluster_seq().len() == 1,
            w.cluster_seq()[0] == w.current_site(),
            w.frontier_seq() == Seq::<usize>::empty(),
    {
        let seed = crate::rng::random_index(rng, lat.size);
        let mut visited: Vec<bool> = Vec::new();
        let mut i: usize = 0;
        while i < lat.size
            invariant
                i <= lat.size,
                visited@.len() == i as int,
                forall|j: int| 0 <= j < i as int ==> !(#[trigger] visited@[j]),
            decreases lat.size - i,
        {
            visited.push(false);
            i = i + 1;
        }
        visited.set(seed, true);
        let mut cluster: Vec<usize> = Vec::new();
        cluster.push(seed);
        let w = WolffCluster {
            visited,
            queue: VecDeque::new(),
            cluster,
            site: seed,
            cursor: 0,
            pending: 0,
            awaiting: false,
            done: false,
        };
        proof {
            assert(w.cluster@[0] == seed);
            assert forall|j: int| 0 <= j < lat.size implies ((#[trigger] w.visited@[j]) <==> w.in_play(
                j,
            )) by {
                if j == seed as int {
                    assert(contains_index(w.cluster@, j));
                } else {
                    if contains_index(w.cluster@, j) {
                        let k = choose|k: int|
                            0 <= k < w.cluster@.len() && w.cluster@[k] as int == j;
                        assert(k == 0);
                    }
                    assert(!contains_index(w.queue@, j));
                }
            }
        }
        w
    }

    /// Advances the traversal to the next bond that needs a decision.
    ///
    /// The cluster grows only by moving a prefix of the old frontier into
    /// it, in order. A returned bond runs from the cluster member under
    /// expansion — the last one taken — along the neighbor entry at the
    /// cursor, to a site neither in the cluster nor on the frontier, and
    /// the machine then awaits [`WolffCluster::resolve`]. `None` means the
    /// traversal finished: the whole frontier has drained into the cluster
    /// and the last member's neighbor list is exhausted.
    #[verifier::loop_isolation(false)]
    pub fn next_bond(&mut self, lat: &Lattice) -> (r: Option<(usize, NeighborEntry)>)
        requires
            lat.wf(),
            old(self).wf(lat),
            !old(self).is_awaiting(),
            !old(self).is_done(),
        ensures
            final(self).wf(lat),
            exists|t: int|
                #![trigger old(self).frontier_seq().take(t)]
                0 <= t <= old(self).frontier_seq().len() && final(self).cluster_seq() == old(self).cluster_seq() + old(self).frontier_seq().take(t) && final(self).frontier_seq()
                    == old(self).frontier_seq().skip(t),
            match r {
                Some(bond) => {
                    &&& final(self).is_awaiting()
                    &&& !final(self).is_done()
                    &&& bond.0 < lat.size
                    &&& bond.1.site < lat.size
                    &&& bond.0 == final(self).current_site()
                    &&& bond.0 == final(self).cluster_seq().last()
                    &&& 0 <= final(self).cursor_pos() < lat.neighbors@[bond.0 as int]@.len()
                    &&& bond.1 == lat.neighbors@[bond.0 as int]@[final(self).cursor_pos()]
                    &&& final(self).pending_site() == bond.1.site
                    &&& lattice_edge(lat, bond.0, bond.1)
                    &&& contains_index(final(self).cluster_seq(), bond.0 as int)
                    &&& !contains_index(final(self).cluster_seq(), bond.1.site as int)
                    &&& !contains_index(final(self).frontier_seq(), bond.1.site as int)
                },
                None => {
                    &&& final(self).is_done()
                    &&& !final(self).is_awaiting()
                    &&& final(self).frontier_seq().len() == 0
                    &&& final(self).cluster_seq() == old(self).cluster_seq() + old(self).frontier_seq()
                    &&& final(self).cursor_pos() == lat.neighbors@[final(self).current_site() as int]@.len()
                    &&& final(self).current_site() == final(self).cluster_seq().last()
                },
            },
    {
        proof {
            assert(old(self).frontier_seq().take(0) =~= Seq::<usize>::empty());
            assert(old(self).cluster_seq() + old(self).frontier_seq().take(0) =~= old(self).cluster_seq());
            assert(old(self).frontier_seq().skip(0) =~= old(self).frontier_seq());
        }
        loop
            invariant
                self.wf(lat),
                !self.is_awaiting(),
                !self.is_done(),
                exists|t: int|
                    #![trigger old(self).frontier_seq().take(t)]
                    0 <= t <= old(self).frontier_seq().len() && self.cluster_seq() == old(self).cluster_seq() + old(self).frontier_seq().take(t) && self.frontier_seq()
                        == old(self).frontier_seq().skip(t),
            decreases self.queue@.len(), lat.neighbors@[self.site as int]@.len() - self.cursor,
        {
            let nbrs_len = lat.neighbors[self.site].len();
            if self.cursor < nbrs_len {
                let e = lat.neighbors[self.site][self.cursor];
                if self.visited[e.site] {
                    self.cursor = self.cursor + 1;
                } else {
                    self.pending = e.site;
                    self.awaiting = true;
                    proof {
                        assert(self.cluster@.last() == self.site);
                        assert(contains_index(self.cluster@, self.site as int));
                        assert(!self.in_play(e.site as int));
                        assert(!contains_index(self.cluster@, e.site as int));
                        assert(!contains_index(self.queue@, e.site as int));
                    }
                    return Some((self.site, e));
                }
            } else {
                let ghost t0 = choose|t: int|
                    #![trigger old(self).frontier_seq().take(t)]
                    0 <= t <= old(self).frontier_seq().len() && self.cluster_seq() == old(self).cluster_seq() + old(self).frontier_seq().take(t) && self.frontier_seq()
                        == old(self).frontier_seq().skip(t);
                let ghost q0 = self.queue@;
                let ghost c0 = self.cluster@;
                match self.queue.pop_front() {
                    Some(s) => {
                        self.cluster.push(s);
                        self.site = s;
                        self.cursor = 0;
                        proof {
                            assert(s == q0[0]);
                            assert(self.queue@ == q0.subrange(1, q0.len() as int));
                            assert(self.cluster@ == c0.push(s));
                            assert forall|p: int, q: int|
                                0 <= p < q < self.cluster@.len() implies self.cluster@[p]
                                != self.cluster@[q] by {
                                if q == c0.len() as int {
                                    assert(self.cluster@[q] == q0[0]);
                                    assert(c0[p] != q0[0]);
                                }
                            }
                            assert forall|k: int, m: int|
                                0 <= k < self.cluster@.len() && 0 <= m < self.queue@.len()
                                implies (self.cluster@[k]) != (self.queue@[m]) by {
                                assert(self.queue@[m] == q0[m + 1]);
                                if k == c0.len() as int {
                                    assert(self.cluster@[k] == q0[0]);
                                    assert(q0[0] != q0[m + 1]);
                                } else {
                                    assert(self.cluster@[k] == c0[k]);
                                }
                            }
                            assert forall|j: int| 0 <= j < lat.size implies ((
                            #[trigger] self.visited@[j]) <==> self.in_play(j)) by {
                                if self.visited@[j] {
                                    if contains_index(c0, j) {
                                        let k = choose|k: int|
                                            0 <= k < c0.len() && c0[k] as int == j;
                                        assert(self.cluster@[k] as int == j);
                                    } else {
                                        let k = choose|k: int|
                                            0 <= k < q0.len() && q0[k] as int == j;
                                        if k == 0 {
                                            assert(self.cluster@[c0.len() as int] as int == j);
                                        } else {
                                            assert(self.queue@[k - 1] as int == j);
                                        }
                                    }
                                }
                                if self.in_play(j) {
                                    if contains_index(self.cluster@, j) {
                                        let k = choose|k: int|
                                            0 <= k < self.cluster@.len() && self.cluster@[
                                                k] as int == j;
                                        if k < c0.len() as int {
                                            assert(c0[k] as int == j);
                                        } else {
                                            assert(q0[0] as int == j);
                                        }
                                    } else {
                                        let k = choose|k: int|
                                            0 <= k < self.queue@.len() && self.queue@[k] as int
                                                == j;
                                        assert(q0[k + 1] as int == j);
                                    }
                                    assert(self.visited@[j]);
                                }
                            }
                            // The taken site is the next frontier element:
                            // the prefix moved into the cluster grows by one.
                            assert(q0.len() >= 1);
                            assert(t0 < old(self).frontier_seq().len());
                            assert(s == old(self).frontier_seq()[t0]);
                            assert(old(self).frontier_seq().take(t0 + 1) =~= old(self).frontier_seq().take(t0).push(s));
                            assert(self.cluster_seq() =~= old(self).cluster_seq() + old(self).frontier_seq().take(t0 + 1));
                            assert(self.frontier_seq() =~= old(self).frontier_seq().skip(
                                t0 + 1,
                            ));
                        }
                    },
                    None => {
                        self.done = true;
                        proof {
                            assert(old(self).frontier_seq().skip(t0).len() == 0);
                            assert(t0 == old(self).frontier_seq().len());
                            assert(old(self).frontier_seq().take(t0) =~= old(self).frontier_seq());
                        }
                        return None;
                    },
                }
            }
        }
    }

    /// Feeds back the decision for the pending bond: an accepted target —
    /// and nothing else — joins the frontier, a rejected one is passed
    /// over, and either way the cursor moves past the offered bond.
    pub fn resolve(&mut self, lat: &Lattice, accepted: bool)
        requires
            lat.wf(),
            old(self).wf(lat),
            old(self).is_awaiting(),
        ensures
            final(self).wf(lat),
            !final(self).is_awaiting(),
            !final(self).is_done(),
            final(self).cluster_seq() == old(self).cluster_seq(),
            final(self).current_site() == old(self).current_site(),
            final(self).cursor_pos() == old(self).cursor_pos() + 1,
            accepted ==> final(self).frontier_seq() == old(self).frontier_seq().push(
                old(self).pending_site(),
            ),
            !accepted ==> final(self).frontier_seq() == old(self).frontier_seq(),
    {
        let nbrs_len = lat.neighbors[self.site].len();
        if accepted {
            let p = self.pending;
            let ghost q0 = self.queue@;
            proof {
                assert(!self.visited@[p as int]);
                assert(!contains_index(q0, p as int));
                assert(!contains_index(self.cluster@, p as int));
            }
            self.visited.set(p, true);
            self.queue.push_back(p);
            proof {
                assert(self.queue@ == q0.push(p));
                assert forall|a: int, b: int|
                    0 <= a < b < self.queue@.len() implies self.queue@[a] != self.queue@[b] by {
                    if b == q0.len() as int {
                        if self.queue@[a] == self.queue@[b] {
                            assert(q0[a] as int == p as int);
                            assert(contains_index(q0, p as int));
                        }
                    }
                }
                assert forall|k: int, m: int|
                    0 <= k < self.cluster@.len() && 0 <= m < self.queue@.len() implies (
                self.cluster@[k]) != (self.queue@[m]) by {
                    if m == q0.len() as int {
                        if self.cluster@[k] == self.queue@[m] {
                            assert(self.cluster@[k] as int == p as int);
                            assert(contains_index(self.cluster@, p as int));
                        }
                    } else {
                        assert(self.queue@[m] == q0[m]);
                    }
                }
                assert forall|j: int| 0 <= j < lat.size implies ((#[trigger] self.visited@[j])
                    <==> self.in_play(j)) by {
                    if j == p as int {
                        assert(self.queue@[q0.len() as int] as int == j);
                    } else {
                        if self.visited@[j] {
                            if contains_index(q0, j) {
                                let k = choose|k: int| 0 <= k < q0.len() && q0[k] as int == j;
                                assert(self.queue@[k] as int == j);
                            }
                        }
                        if contains_index(self.queue@, j) {
                            let k = choose|k: int|
                                0 <= k < self.queue@.len() && self.queue@[k] as int == j;
                            assert(k != q0.len() as int);
                            assert(q0[k] as int == j);
                        }
                    }
                }
            }
        }
        self.cursor = self.cursor + 1;
        self.awaiting = false;
    }

    /// The number of sites taken so far.
    pub fn cluster_size(&self) -> (n: usize)
        ensures
            n == self.cluster_seq().len(),
    {
        self.cluster.len()
    }

    /// Hands out the finished cluster: a nonempty list of distinct, valid
    /// site indices.
    pub fn into_cluster(self, lat: &Lattice) -> (cluster: Vec<usize>)
        requires
            lat.wf(),
            self.wf(lat),
            self.is_done(),
        ensures
            cluster@ == self.cluster_seq(),
            cluster@.len() >= 1,
            distinct_indices(cluster@),
            forall|k: int| 0 <= k < cluster@.len() ==> (#[trigger] cluster@[k]) < lat.size,
    {
        self.cluster
    }
}

} // verus!
