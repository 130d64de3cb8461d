//! Batch-level laws: what every run of a pool operation guarantees, proved
//! once over the `batch_run` record that the operations' contracts expose.

use vstd::prelude::*;

use crate::pool::batch_run;

verus! {

/// A function whose answer is pinned by its argument alone: any two answers
/// for the same element are equal.
pub open spec fn deterministic<T, U, F: Fn(T) -> Option<U>>(f: F) -> bool {
    forall|x: T, y1: Option<U>, y2: Option<U>|
        call_ensures(f, (x,), y1) && call_ensures(f, (x,), y2) ==> y1 == y2
}

/// A function that never fails: every answer it can give is `Some`.
pub open spec fn never_fails<T, U, F: Fn(T) -> Option<U>>(f: F) -> bool {
    forall|x: T, y: Option<U>| call_ensures(f, (x,), y) ==> y is Some
}

/// When the function's answers are pinned elementwise to `target` and never
/// fail, a batch run computes exactly `target`: one answer per input
/// position, in input position order.
pub proof fn lemma_batch_run_pinned<T, U, F: Fn(T) -> Option<U>>(
    f: F,
    v: Seq<T>,
    results: Seq<Option<U>>,
    target: Seq<Option<U>>,
)
    requires
        batch_run(f, v, results),
        target.len() == v.len(),
        forall|i: int, y: Option<U>|
            0 <= i < v.len() && #[trigger] call_ensures(f, (v[i],), y) ==> y == target[i],
        forall|i: int| 0 <= i < target.len() ==> #[trigger] target[i] is Some,
    ensures
        results == target,
{
    assert forall|i: int| 0 <= i < results.len() implies #[trigger] results[i] == target[i] by {
        assert(call_ensures(f, (v[i],), results[i]));
    }
    if results.len() < v.len() {
        assert(results[results.len() - 1] == target[results.len() - 1]);
    }
    assert(results =~= target);
}

/// Determinism: two batch runs of the same deterministic function over the
/// same input leave identical records — the same answers, and a failure (if
/// any) at the same position.
pub proof fn lemma_batch_run_deterministic<T, U, F: Fn(T) -> Option<U>>(
    f: F,
    v: Seq<T>,
    r1: Seq<Option<U>>,
    r2: Seq<Option<U>>,
)
    requires
        deterministic(f),
        batch_run(f, v, r1),
        batch_run(f, v, r2),
    ensures
        r1 == r2,
{
    lemma_batch_run_prefix_agree(f, v, r1, r2);
    lemma_batch_run_prefix_agree(f, v, r2, r1);
    assert(r1 =~= r2);
}

/// Helper: of two records of one deterministic batch, the first is no
/// shorter than the second, and they agree where both are defined.
proof fn lemma_batch_run_prefix_agree<T, U, F: Fn(T) -> Option<U>>(
    f: F,
    v: Seq<T>,
    r1: Seq<Option<U>>,
    r2: Seq<Option<U>>,
)
    requires
        deterministic(f),
        batch_run(f, v, r1),
        batch_run(f, v, r2),
    ensures
        r1.len() >= r2.len(),
        forall|i: int| 0 <= i < r2.len() ==> #[trigger] r1[i] == r2[i],
{
    assert forall|i: int| 0 <= i < r1.len() && i < r2.len() implies #[trigger] r1[i] == r2[i] by {
        assert(call_ensures(f, (v[i],), r1[i]));
        assert(call_ensures(f, (v[i],), r2[i]));
    }
    if r1.len() < r2.len() {
        let k = r1.len() - 1;
        assert(r1[k] is None);
        assert(r2[k] is Some);
    }
}

/// Success is owed: a batch run of a function that never fails answers
/// every input position, and every answer is `Some`.
pub proof fn lemma_batch_run_total<T, U, F: Fn(T) -> Option<U>>(
    f: F,
    v: Seq<T>,
    results: Seq<Option<U>>,
)
    requires
        never_fails(f),
        batch_run(f, v, results),
    ensures
        results.len() == v.len(),
        forall|i: int| 0 <= i < results.len() ==> #[trigger] results[i] is Some,
{
    assert forall|i: int| 0 <= i < results.len() implies #[trigger] results[i] is Some by {
        assert(call_ensures(f, (v[i],), results[i]));
    }
    if results.len() < v.len() {
        assert(results[results.len() - 1] is None);
    }
}

/// Boundary: a batch over an empty input records nothing — there is no
/// element to dispatch, to fail on, or to answer for.
pub proof fn lemma_batch_run_empty<T, U, F: Fn(T) -> Option<U>>(
    f: F,
    v: Seq<T>,
    results: Seq<Option<U>>,
)
    requires
        batch_run(f, v, results),
        v.len() == 0,
    ensures
        results.len() == 0,
{
}

/// Failure propagation: a batch that records any failed element records
/// exactly one, as its last entry, so the failure is reported rather than
/// silently dropped.
pub proof fn lemma_batch_run_failure<T, U, F: Fn(T) -> Option<U>>(
    f: F,
    v: Seq<T>,
    results: Seq<Option<U>>,
    k: int,
)
    requires
        batch_run(f, v, results),
        0 <= k < results.len(),
        results[k] is None,
    ensures
        k == results.len() - 1,
        forall|i: int| 0 <= i < results.len() - 1 ==> #[trigger] results[i] is Some,
{
}

} // verus!
