//! The pool engine: lifecycle, batch submission, and the three batch
//! operations.
//!
//! A `Pool` is created with a fixed worker count and is exclusively borrowed
//! by whichever batch operation is in flight, so at most one job runs on a
//! pool at a time and nothing the job borrows can be invalidated before the
//! operation returns. A batch walks the input through the pull-based
//! `Distributor`, applies the user function to every element handed out, and
//! records one completion `Packet` per dispatched position. A failed element
//! (the user function answers `None`) stops dispatch, poisons the pool, and
//! is reported as `ElementFailure` at the caller's first wait — never on an
//! unrelated code path.

use vstd::prelude::*;

use crate::PoolError;
use crate::distribute::Distributor;
use crate::maps::{Packet, ParMap, UnorderedParMap};

verus! {

/// A fixed-size pool. The worker count is immutable for the pool's
/// lifetime; a pool is poisoned by the first failed element and refuses
/// further batches afterwards.
pub struct Pool {
    n_threads: usize,
    poisoned: bool,
}

/// A token for one submitted job: it records whether the job failed, and
/// consuming it through `wait` is the single point where that failure is
/// reported back on the caller's side.
pub struct JobHandle {
    failed: bool,
}

impl JobHandle {
    /// Whether the job this handle guards failed on some element.
    pub closed spec fn job_failed(self) -> bool {
        self.failed
    }

    /// Record the outcome of a finished job.
    pub fn new(failed: bool) -> (h: JobHandle)
        ensures
            h.job_failed() == failed,
    {
        JobHandle { failed }
    }

    /// Consume the handle and report the job's outcome: `ElementFailure`
    /// exactly when the job failed.
    pub fn wait(self) -> (r: Result<(), PoolError>)
        ensures
            r == (if self.job_failed() {
                Err::<(), PoolError>(PoolError::ElementFailure)
            } else {
                Ok::<(), PoolError>(())
            }),
    {
        if self.failed {
            Err(PoolError::ElementFailure)
        } else {
            Ok(())
        }
    }
}

/// What one batch run of `f` over the input `v` leaves behind: `results`
/// records `f`'s answer per dispatched position. Positions are dispatched in
/// input order and dispatch stops right after a failed element, so either
/// every position of `v` has an answer, or the answers are a non-empty
/// prefix whose last entry is the one failure.
pub open spec fn batch_run<T, U, F: Fn(T) -> Option<U>>(
    f: F,
    v: Seq<T>,
    results: Seq<Option<U>>,
) -> bool {
    &&& results.len() <= v.len()
    &&& forall|i: int| 0 <= i < results.len() ==> call_ensures(f, (v[i],), #[trigger] results[i])
    &&& forall|i: int| 0 <= i < results.len() - 1 ==> #[trigger] results[i] is Some
    &&& (results.len() < v.len() ==> results.len() > 0 && results[results.len() - 1] is None)
}

/// Dispatch every element of `elems` through the pull protocol and apply
/// `f` to each element handed out, stopping right after the first failed
/// element. Yields the completion packets — one per dispatched position,
/// tagged with it and carrying `f`'s answer — the failure flag, and the
/// ghost record of the per-position answers.
fn run_batch<T, U, F: Fn(T) -> Option<U>>(elems: Vec<T>, f: &F) -> (out: (
    Vec<Packet<U>>,
    bool,
    Ghost<Seq<Option<U>>>,
))
    requires
        forall|i: int| 0 <= i < elems@.len() ==> call_requires(*f, (#[trigger] elems@[i],)),
    ensures
        ({
            let packets = out.0@;
            let failed = out.1;
            let results = out.2@;
            &&& batch_run(*f, elems@, results)
            &&& (failed <==> (results.len() > 0 && results[results.len() - 1] is None))
            &&& (failed <==> exists|i: int| 0 <= i < results.len() && #[trigger] results[i] is None)
            &&& packets.len() == results.len()
            &&& forall|i: int|
                0 <= i < packets.len() ==> #[trigger] packets[i].idx == i && packets[i].data
                    == results[i]
        }),
{
    let ghost src = elems@;
    let mut d = Distributor::new(elems);
    let mut packets: Vec<Packet<U>> = Vec::new();
    let mut failed: bool = false;
    let mut stop: bool = false;
    while !stop
        invariant
            d.wf(),
            d.source() == src,
            forall|i: int| 0 <= i < src.len() ==> call_requires(*f, (#[trigger] src[i],)),
            packets@.len() == d.cursor(),
            d.cursor() <= src.len(),
            forall|i: int|
                0 <= i < packets@.len() ==> #[trigger] packets@[i].idx == i && call_ensures(
                    *f,
                    (src[i],),
                    packets@[i].data,
                ),
            forall|i: int| 0 <= i < packets@.len() - 1 ==> #[trigger] packets@[i].data is Some,
            failed <==> (packets@.len() > 0 && packets@[packets@.len() - 1].data is None),
            failed ==> stop,
            stop ==> failed || d.cursor() == src.len(),
        decreases (src.len() - d.cursor()) + (if stop {
            0int
        } else {
            1int
        }),
    {
        match d.request() {
            Some(pair) => {
                let (i, x) = pair;
                let y = f(x);
                let bad = y.is_none();
                packets.push(Packet { idx: i, data: y });
                if bad {
                    failed = true;
                    stop = true;
                }
            },
            None => {
                stop = true;
            },
        }
    }
    let ghost results = packets@.map_values(|p: Packet<U>| p.data);
    proof {
        assert forall|i: int| 0 <= i < results.len() implies call_ensures(
            *f,
            (src[i],),
            #[trigger] results[i],
        ) by {
            assert(packets@[i].idx == i && call_ensures(*f, (src[i],), packets@[i].data));
            assert(results[i] == packets@[i].data);
        }
        if failed {
            assert(results[results.len() - 1] is None);
        }
        if exists|i: int| 0 <= i < results.len() && #[trigger] results[i] is None {
            let i = choose|i: int| 0 <= i < results.len() && #[trigger] results[i] is None;
            assert(packets@[i].data is None);
            assert(i == packets@.len() - 1);
        }
    }
    (packets, failed, Ghost(results))
}

impl Pool {
    /// The fixed number of worker slots.
    pub closed spec fn thread_count(self) -> int {
        self.n_threads as int
    }

    /// Whether an earlier batch failed on some element, invalidating the
    /// pool for further batches.
    pub closed spec fn is_poisoned(self) -> bool {
        self.poisoned
    }

    /// Create a pool with `n_threads` worker slots. A worker count of zero
    /// is a configuration error; any positive count yields a usable pool.
    pub fn new(n_threads: usize) -> (r: Result<Pool, PoolError>)
        ensures
            (match r {
                Ok(p) => n_threads >= 1 && p.thread_count() == n_threads && !p.is_poisoned(),
                Err(e) => n_threads == 0 && e == PoolError::Configuration,
            }),
    {
        if n_threads == 0 {
            Err(PoolError::Configuration)
        } else {
            Ok(Pool { n_threads, poisoned: false })
        }
    }

    /// Apply `f` to every element of `v` in place: afterwards position `i`
    /// holds `f`'s answer for the old element at `i`. If `f` fails on an
    /// element, the batch aborts: the elements processed so far keep their
    /// new values, the rest are discarded, the pool is poisoned, and the
    /// failure is reported at the handle's wait.
    pub fn for_<T, F: Fn(T) -> Option<T>>(&mut self, v: &mut Vec<T>, f: F) -> (r: Result<
        (),
        PoolError,
    >)
        requires
            forall|i: int| 0 <= i < old(v)@.len() ==> call_requires(f, (#[trigger] old(v)@[i],)),
        ensures
            final(self).thread_count() == old(self).thread_count(),
            (if old(self).is_poisoned() {
                &&& r == Err::<(), PoolError>(PoolError::Poisoned)
                &&& final(v)@ == old(v)@
                &&& final(self).is_poisoned()
            } else {
                &&& (r is Ok || r == Err::<(), PoolError>(PoolError::ElementFailure))
                &&& (final(self).is_poisoned() <==> r is Err)
                &&& (r is Ok ==> final(v)@.len() == old(v)@.len() && forall|i: int|
                    0 <= i < old(v)@.len() ==> call_ensures(
                        f,
                        (old(v)@[i],),
                        Some(#[trigger] final(v)@[i]),
                    ))
                &&& (r is Err ==> final(v)@.len() < old(v)@.len() && (forall|i: int|
                    0 <= i < final(v)@.len() ==> call_ensures(
                        f,
                        (old(v)@[i],),
                        Some(#[trigger] final(v)@[i]),
                    )) && call_ensures(f, (old(v)@[final(v)@.len() as int],), Option::<T>::None))
            }),
    {
        if self.poisoned {
            return Err(PoolError::Poisoned);
        }
        let mut taken: Vec<T> = Vec::new();
        core::mem::swap(v, &mut taken);
        let ghost src = taken@;
        let (mut packets, failed, results) = run_batch(taken, &f);
        let ghost res = results@;
        let ghost allp = packets@;
        if failed {
            let _sentinel = packets.pop();
        }
        let ghost total = packets@.len() as int;
        proof {
            assert forall|k: int| 0 <= k < packets@.len() implies #[trigger] packets@[k].data
                == res[k] by {
                assert(packets@[k] == allp[k]);
                assert(allp[k].idx == k);
            }
            assert forall|i: int| 0 <= i < total implies #[trigger] res[i] is Some by {
                if res[i] is None {
                    if !failed {
                        assert(exists|j: int| 0 <= j < res.len() && #[trigger] res[j] is None);
                    }
                }
            }
        }
        let mut out: Vec<T> = Vec::new();
        while packets.len() > 0
            invariant
                out@.len() + packets@.len() == total,
                0 <= total <= res.len(),
                forall|k: int|
                    0 <= k < packets@.len() ==> #[trigger] packets@[k].data == res[out@.len() + k],
                forall|i: int| 0 <= i < total ==> #[trigger] res[i] is Some,
                forall|i: int| 0 <= i < out@.len() ==> Some(#[trigger] out@[i]) == res[i],
            decreases packets@.len(),
        {
            let p = packets.remove(0);
            match p.data {
                Some(u) => {
                    out.push(u);
                },
                None => {
                    proof {
                        assert(false);
                    }
                },
            }
        }
        *v = out;
        if failed {
            self.poisoned = true;
        }
        let handle = JobHandle::new(failed);
        handle.wait()
    }

    /// Run `f` over every element of `v` and return the completions as a
    /// stream of `(position, value)` pairs in completion order. If `f` fails
    /// on an element, dispatch stops there, the pool is poisoned, and the
    /// stream reports the failure when that element's packet is reached.
    pub fn unordered_map<T, U, F: Fn(T) -> Option<U>>(&mut self, v: Vec<T>, f: F) -> (r: Result<
        UnorderedParMap<U>,
        PoolError,
    >)
        requires
            forall|i: int| 0 <= i < v@.len() ==> call_requires(f, (#[trigger] v@[i],)),
        ensures
            final(self).thread_count() == old(self).thread_count(),
            (if old(self).is_poisoned() {
                r == Err::<UnorderedParMap<U>, PoolError>(PoolError::Poisoned)
                    && final(self).is_poisoned()
            } else {
                match r {
                    Ok(m) => {
                        &&& m.wf()
                        &&& m.complete()
                        &&& batch_run(f, v@, m.results())
                        &&& (final(self).is_poisoned() <==> exists|i: int|
                            0 <= i < m.results().len() && #[trigger] m.results()[i] is None)
                    },
                    Err(_) => false,
                }
            }),
    {
        if self.poisoned {
            return Err(PoolError::Poisoned);
        }
        let (packets, failed, results) = run_batch(v, &f);
        if failed {
            self.poisoned = true;
        }
        let n = packets.len();
        proof {
            assert(results@.len() == n <= usize::MAX);
            assert forall|j: int| 0 <= j < results@.len() implies crate::maps::has_idx(
                packets@,
                j,
            ) by {
                assert(packets@[j].idx == j);
            }
        }
        Ok(UnorderedParMap::from_batch(packets, results))
    }

    /// Run `f` over every element of `v` and return the results as a stream
    /// in input order: the `i`th value yielded is `f`'s answer for `v[i]`,
    /// however the completions were ordered. If `f` fails on an element,
    /// dispatch stops there, the pool is poisoned, and the stream reports
    /// the failure when that element's turn comes.
    pub fn map<T, U, F: Fn(T) -> Option<U>>(&mut self, v: Vec<T>, f: F) -> (r: Result<
        ParMap<U>,
        PoolError,
    >)
        requires
            forall|i: int| 0 <= i < v@.len() ==> call_requires(f, (#[trigger] v@[i],)),
        ensures
            final(self).thread_count() == old(self).thread_count(),
            (if old(self).is_poisoned() {
                r == Err::<ParMap<U>, PoolError>(PoolError::Poisoned) && final(self).is_poisoned()
            } else {
                match r {
                    Ok(m) => {
                        &&& m.wf()
                        &&& m.cursor() == 0
                        &&& batch_run(f, v@, m.results())
                        &&& (final(self).is_poisoned() <==> exists|i: int|
                            0 <= i < m.results().len() && #[trigger] m.results()[i] is None)
                    },
                    Err(_) => false,
                }
            }),
    {
        match self.unordered_map(v, f) {
            Ok(u) => Ok(ParMap::from_unordered(u)),
            Err(e) => Err(e),
        }
    }
}

} // verus!
