//! The connection-admission controller: a bounded set of in-flight
//! connection handles with a lazy sweep of finished ones. Over capacity a
//! connection is dropped, never queued — the load-shedding policy the
//! admission laws below pin down.

use vstd::prelude::*;

verus! {

/// The sweep: entry `i` of `conns` stays exactly when `fin[i]` is false.
pub open spec fn keep_unfinished(conns: Seq<u64>, fin: Seq<bool>) -> Seq<u64>
    decreases conns.len(),
{
    if conns.len() == 0 {
        Seq::empty()
    } else {
        let rest = keep_unfinished(conns.skip(1), fin.skip(1));
        if fin.len() > 0 && fin[0] {
            rest
        } else {
            seq![conns[0]] + rest
        }
    }
}

/// If nothing has finished, the sweep keeps every handle.
pub proof fn lemma_keep_all_unfinished(conns: Seq<u64>, fin: Seq<bool>)
    requires
        fin.len() == conns.len(),
        forall|i: int| 0 <= i < fin.len() ==> !fin[i],
    ensures
        keep_unfinished(conns, fin) == conns,
    decreases conns.len(),
{
    if conns.len() > 0 {
        assert(!fin[0]);
        assert forall|i: int| 0 <= i < fin.skip(1).len() implies !fin.skip(1)[i] by {
            assert(fin.skip(1)[i] == fin[i + 1]);
        }
        lemma_keep_all_unfinished(conns.skip(1), fin.skip(1));
        assert(seq![conns[0]] + conns.skip(1) =~= conns);
    }
}

/// The bounded worker set: a fixed capacity and the in-flight handles.
pub struct ThreadPool {
    pub max_connections: usize,
    pub current_connections: Vec<u64>,
}

impl ThreadPool {
    /// An empty pool with the given capacity.
    pub fn new(max_connections: usize) -> (r: ThreadPool)
        ensures
            r.max_connections == max_connections,
            r.current_connections@ == Seq::<u64>::empty(),
    {
        let r = ThreadPool { max_connections, current_connections: Vec::new() };
        proof {
            assert(r.current_connections@ =~= Seq::<u64>::empty());
        }
        r
    }

    /// One admission decision for the connection `handle`: sweep out the
    /// handles whose entry in `finished` is true, then admit exactly when
    /// the remaining in-flight count is below capacity; an over-capacity
    /// connection is dropped without queueing.
    pub fn execute(&mut self, handle: u64, finished: &Vec<bool>) -> (admitted: bool)
        requires
            finished@.len() == old(self).current_connections@.len(),
        ensures
            ({
                let kept = keep_unfinished(old(self).current_connections@, finished@);
                &&& final(self).max_connections == old(self).max_connections
                &&& admitted == (kept.len() < old(self).max_connections)
                &&& final(self).current_connections@ == (if admitted {
                    kept.push(handle)
                } else {
                    kept
                })
            }),
    {
        let ghost conns = self.current_connections@;
        let ghost fin = finished@;
        let mut kept: Vec<u64> = Vec::new();
        let mut i: usize = 0;
        proof {
            assert(conns.skip(0) =~= conns);
            assert(fin.skip(0) =~= fin);
            assert(kept@ + keep_unfinished(conns, fin) =~= keep_unfinished(conns, fin));
        }
        while i < self.current_connections.len()
            invariant
                i <= conns.len(),
                fin.len() == conns.len(),
                conns == self.current_connections@,
                fin == finished@,
                self.max_connections == old(self).max_connections,
                self.current_connections@ == old(self).current_connections@,
                keep_unfinished(conns, fin) == kept@ + keep_unfinished(
                    conns.skip(i as int),
                    fin.skip(i as int),
                ),
            decreases conns.len() - i,
        {
            let ghost csuf = conns.skip(i as int);
            let ghost fsuf = fin.skip(i as int);
            proof {
                assert(csuf[0] == conns[i as int]);
                assert(fsuf[0] == fin[i as int]);
                assert(csuf.skip(1) =~= conns.skip(i + 1));
                assert(fsuf.skip(1) =~= fin.skip(i + 1));
            }
            let ghost kept0 = kept@;
            if !finished[i] {
                kept.push(self.current_connections[i]);
                proof {
                    assert(keep_unfinished(csuf, fsuf) == seq![conns[i as int]] + keep_unfinished(
                        conns.skip(i + 1),
                        fin.skip(i + 1),
                    ));
                    assert(kept0 + (seq![conns[i as int]] + keep_unfinished(
                        conns.skip(i + 1),
                        fin.skip(i + 1),
                    )) =~= kept@ + keep_unfinished(conns.skip(i + 1), fin.skip(i + 1)));
                }
            } else {
                proof {
                    assert(keep_unfinished(csuf, fsuf) == keep_unfinished(
                        conns.skip(i + 1),
                        fin.skip(i + 1),
                    ));
                }
            }
            i = i + 1;
        }
        proof {
            assert(conns.skip(conns.len() as int) =~= Seq::<u64>::empty());
            assert(fin.skip(fin.len() as int) =~= Seq::<bool>::empty());
            assert(keep_unfinished(Seq::<u64>::empty(), Seq::<bool>::empty()) =~= Seq::<
                u64,
            >::empty());
            assert(kept@ + Seq::<u64>::empty() =~= kept@);
        }
        self.current_connections = kept;
        if self.current_connections.len() < self.max_connections {
            self.current_connections.push(handle);
            true
        } else {
            false
        }
    }
}

/// The in-flight count after `k` admission attempts against capacity `cap`,
/// starting from an empty pool, with no connection finishing: each attempt
/// takes the step that [`ThreadPool::execute`] guarantees.
pub open spec fn run_len(cap: nat, k: nat) -> nat
    decreases k,
{
    if k == 0 {
        0
    } else {
        let l = run_len(cap, (k - 1) as nat);
        if l < cap {
            (l + 1) as nat
        } else {
            l
        }
    }
}

/// How many of those `k` attempts were admitted.
pub open spec fn run_admitted(cap: nat, k: nat) -> nat
    decreases k,
{
    if k == 0 {
        0
    } else {
        let a = run_admitted(cap, (k - 1) as nat);
        if run_len(cap, (k - 1) as nat) < cap {
            (a + 1) as nat
        } else {
            a
        }
    }
}

/// One [`ThreadPool::execute`] step with nothing finished takes the
/// in-flight count exactly as [`run_len`] does: from `run_len(cap, k)` to
/// `run_len(cap, k + 1)`, admitting exactly when the count is below `cap`.
pub proof fn lemma_execute_models_run(
    cap: nat,
    k: nat,
    conns: Seq<u64>,
    fin: Seq<bool>,
    handle: u64,
)
    requires
        conns.len() == run_len(cap, k),
        fin.len() == conns.len(),
        forall|i: int| 0 <= i < fin.len() ==> !fin[i],
    ensures
        keep_unfinished(conns, fin).len() == run_len(cap, k),
        (if keep_unfinished(conns, fin).len() < cap {
            keep_unfinished(conns, fin).push(handle).len()
        } else {
            keep_unfinished(conns, fin).len()
        }) == run_len(cap, (k + 1) as nat),
{
    lemma_keep_all_unfinished(conns, fin);
}

/// Admission is deterministically bounded by capacity: of `k` simultaneous
/// connections offered to an empty pool of capacity `cap`, exactly
/// `min(k, cap)` are admitted.
pub proof fn lemma_admission_capacity(cap: nat, k: nat)
    ensures
        run_len(cap, k) == if k <= cap {
            k
        } else {
            cap
        },
        run_admitted(cap, k) == if k <= cap {
            k
        } else {
            cap
        },
    decreases k,
{
    if k > 0 {
        lemma_admission_capacity(cap, (k - 1) as nat);
    }
}

/// Overload: `cap + 1` simultaneous connections against capacity `cap` see
/// exactly `cap` admitted and at least one dropped.
pub proof fn lemma_admission_overload(cap: nat)
    ensures
        run_admitted(cap, (cap + 1) as nat) == cap,
        (cap + 1) - run_admitted(cap, (cap + 1) as nat) >= 1,
{
    lemma_admission_capacity(cap, (cap + 1) as nat);
}

} // verus!
