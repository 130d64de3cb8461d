//! Completion packets and the two caller-facing result streams.
//!
//! Workers report each finished element as a `Packet` tagged with the
//! element's position in the input. `UnorderedParMap` replays packets in
//! completion order; `ParMap` feeds them through a `Reorderer` — a
//! min-priority structure keyed ascending on the position, driven by a
//! `looking_for` cursor that only increases — and replays the payloads in
//! input order no matter how far completions raced ahead.

use vstd::prelude::*;

use crate::PoolError;

verus! {

/// One completed element: its position in the input batch and its payload.
/// A payload of `None` is the failure sentinel for an element on which the
/// user function failed.
pub struct Packet<T> {
    pub idx: usize,
    pub data: Option<T>,
}

/// True when some packet of `s` carries position `j`.
pub open spec fn has_idx<T>(s: Seq<Packet<T>>, j: int) -> bool {
    exists|i: int| 0 <= i < s.len() && #[trigger] s[i].idx == j
}

/// The ordering-reconstruction buffer: packets not yet replayed, kept as a
/// min-priority structure on `idx` (strictly ascending, so positions are
/// distinct), and the `looking_for` cursor — the position owed to the caller
/// next. Every buffered packet's position is at least `looking_for`.
pub struct Reorderer<T> {
    queue: Vec<Packet<T>>,
    looking_for: usize,
}

impl<T> Reorderer<T> {
    /// The buffered out-of-order packets, in ascending position order.
    pub closed spec fn buffered(self) -> Seq<Packet<T>> {
        self.queue@
    }

    /// The position that must be replayed next.
    pub closed spec fn cursor(self) -> int {
        self.looking_for as int
    }

    /// Buffered packets are sorted strictly ascending by position and none
    /// is below the cursor.
    pub closed spec fn wf(self) -> bool {
        &&& forall|i: int|
            0 <= i < self.queue@.len() ==> #[trigger] self.queue@[i].idx >= self.looking_for
        &&& forall|i: int, j: int|
            0 <= i < j < self.queue@.len() ==> #[trigger] self.queue@[i].idx
                < #[trigger] self.queue@[j].idx
    }

    /// An empty buffer looking for position 0.
    pub fn new() -> (r: Reorderer<T>)
        ensures
            r.wf(),
            r.buffered().len() == 0,
            r.cursor() == 0,
    {
        Reorderer { queue: Vec::new(), looking_for: 0 }
    }

    /// Buffer one out-of-order completion. Its position must not have been
    /// replayed yet and must not already be buffered.
    pub fn insert(&mut self, p: Packet<T>)
        requires
            old(self).wf(),
            p.idx >= old(self).cursor(),
            !has_idx(old(self).buffered(), p.idx as int),
        ensures
            final(self).wf(),
            final(self).cursor() == old(self).cursor(),
            final(self).buffered().len() == old(self).buffered().len() + 1,
            forall|j: int|
                has_idx(final(self).buffered(), j) <==> has_idx(old(self).buffered(), j) || j
                    == p.idx,
            forall|i: int|
                0 <= i < final(self).buffered().len() ==> final(self).buffered()[i] == p || old(
                    self,
                ).buffered().contains(#[trigger] final(self).buffered()[i]),
    {
        let mut pos: usize = 0;
        while pos < self.queue.len() && self.queue[pos].idx < p.idx
            invariant
                pos <= self.queue.len(),
                forall|i: int| 0 <= i < pos ==> #[trigger] self.queue@[i].idx < p.idx,
                self.queue@ == old(self).queue@,
                self.looking_for == old(self).looking_for,
            decreases self.queue.len() - pos,
        {
            pos = pos + 1;
        }
        proof {
            if pos < self.queue@.len() {
                assert(self.queue@[pos as int].idx != p.idx) by {
                    if self.queue@[pos as int].idx == p.idx {
                        assert(0 <= pos < old(self).buffered().len()
                            && old(self).buffered()[pos as int].idx == p.idx as int);
                        assert(has_idx(old(self).buffered(), p.idx as int));
                    }
                }
                assert(self.queue@[pos as int].idx > p.idx);
            }
        }
        self.queue.insert(pos, p);
        proof {
            let newq = self.queue@;
            let oldq = old(self).queue@;
            assert forall|j: int| has_idx(newq, j) implies has_idx(oldq, j) || j == p.idx by {
                let i = choose|i: int| 0 <= i < newq.len() && #[trigger] newq[i].idx == j;
                if i < pos {
                    assert(oldq[i].idx == j);
                } else if i > pos {
                    assert(oldq[i - 1].idx == j);
                }
            }
            assert forall|j: int| has_idx(oldq, j) implies has_idx(newq, j) by {
                let i = choose|i: int| 0 <= i < oldq.len() && #[trigger] oldq[i].idx == j;
                if i < pos {
                    assert(newq[i].idx == j);
                } else {
                    assert(newq[i + 1].idx == j);
                }
            }
            assert(has_idx(newq, p.idx as int)) by {
                assert(newq[pos as int].idx == p.idx);
            }
            assert forall|i: int| 0 <= i < newq.len() implies newq[i] == p || oldq.contains(
                #[trigger] newq[i],
            ) by {
                if i < pos {
                    assert(newq[i] == oldq[i]);
                } else if i > pos {
                    assert(newq[i] == oldq[i - 1]);
                }
            }
            assert forall|i: int, j: int| 0 <= i < j < newq.len() implies #[trigger] newq[i].idx
                < #[trigger] newq[j].idx by {
                if j < pos {
                } else if i == pos && j > pos {
                    assert(newq[j] == oldq[j - 1]);
                    if j - 1 > pos {
                        assert(oldq[pos as int].idx < oldq[j - 1].idx);
                    }
                    assert(oldq[j - 1].idx > p.idx);
                } else if j == pos {
                    assert(newq[i] == oldq[i]);
                } else if i > pos {
                    assert(newq[i] == oldq[i - 1] && newq[j] == oldq[j - 1]);
                } else if i < pos && j > pos {
                    assert(newq[i] == oldq[i] && newq[j] == oldq[j - 1]);
                    if i < j - 1 {
                        assert(oldq[i].idx < oldq[j - 1].idx);
                    }
                }
            }
        }
    }

    /// True when the next position owed is already buffered, so a payload can
    /// be replayed without pulling more completions.
    pub fn ready(&self) -> (r: bool)
        ensures
            r <==> (self.buffered().len() > 0 && self.buffered()[0].idx == self.cursor()),
    {
        self.queue.len() > 0 && self.queue[0].idx == self.looking_for
    }

    /// Replay the packet at the cursor and advance the cursor past it.
    pub fn pop_ready(&mut self) -> (p: Packet<T>)
        requires
            old(self).wf(),
            old(self).buffered().len() > 0,
            old(self).buffered()[0].idx == old(self).cursor(),
            old(self).cursor() < usize::MAX,
        ensures
            final(self).wf(),
            p == old(self).buffered()[0],
            final(self).buffered() == old(self).buffered().subrange(
                1,
                old(self).buffered().len() as int,
            ),
            final(self).cursor() == old(self).cursor() + 1,
    {
        let p = self.queue.remove(0);
        self.looking_for = self.looking_for + 1;
        proof {
            let oldq = old(self).queue@;
            assert forall|i: int| 0 <= i < self.queue@.len() implies #[trigger] self.queue@[i].idx
                >= self.looking_for by {
                assert(self.queue@[i] == oldq[i + 1]);
                assert(oldq[0].idx < oldq[i + 1].idx);
            }
        }
        p
    }
}

/// The unordered result stream of one batch: the packets the workers
/// produced, replayed in completion order.
///
/// `results()` is the ghost record of the batch: the payload computed for
/// each position that was dispatched. Positions are dispatched in input
/// order, and dispatch stops right after a failed element, so every payload
/// but possibly the last is present.
pub struct UnorderedParMap<T> {
    packets: Vec<Packet<T>>,
    results: Ghost<Seq<Option<T>>>,
}

impl<T> UnorderedParMap<T> {
    /// The payload produced for each dispatched position, by position.
    pub closed spec fn results(self) -> Seq<Option<T>> {
        self.results@
    }

    /// The packets not yet yielded, in completion order.
    pub closed spec fn remaining(self) -> Seq<Packet<T>> {
        self.packets@
    }

    /// Positions of the remaining packets are distinct, and each packet
    /// carries exactly the payload recorded for its position.
    pub closed spec fn wf(self) -> bool {
        &&& self.results@.len() <= usize::MAX
        &&& forall|i: int, j: int|
            0 <= i < j < self.packets@.len() ==> #[trigger] self.packets@[i].idx
                != #[trigger] self.packets@[j].idx
        &&& forall|i: int|
            0 <= i < self.packets@.len() ==> (#[trigger] self.packets@[i].idx
                < self.results@.len() && self.packets@[i].data == self.results@[self.packets@[i].idx as int])
    }

    /// Nothing has been yielded yet: there is one remaining packet for every
    /// dispatched position.
    pub closed spec fn complete(self) -> bool {
        &&& self.packets@.len() == self.results@.len()
        &&& forall|j: int| 0 <= j < self.results@.len() ==> has_idx(self.packets@, j)
    }

    /// Package one finished batch. `packets` must hold one packet per
    /// recorded position, in any order, each carrying its recorded payload.
    pub(crate) fn from_batch(packets: Vec<Packet<T>>, results: Ghost<Seq<Option<T>>>) -> (r:
        UnorderedParMap<T>)
        requires
            results@.len() <= usize::MAX,
            packets@.len() == results@.len(),
            forall|i: int, j: int|
                0 <= i < j < packets@.len() ==> #[trigger] packets@[i].idx
                    != #[trigger] packets@[j].idx,
            forall|i: int|
                0 <= i < packets@.len() ==> (#[trigger] packets@[i].idx < results@.len()
                    && packets@[i].data == results@[packets@[i].idx as int]),
            forall|j: int| 0 <= j < results@.len() ==> has_idx(packets@, j),
        ensures
            r.wf(),
            r.complete(),
            r.results() == results@,
            r.remaining() == packets@,
    {
        UnorderedParMap { packets, results }
    }

    /// Yield the next completion as a `(position, value)` pair, in the order
    /// the workers finished. A failure sentinel is reported as
    /// `ElementFailure`; once the stream is drained it stays at `Ok(None)`.
    pub fn next(&mut self) -> (r: Result<Option<(usize, T)>, PoolError>)
        requires
            old(self).wf(),
        ensures
            final(self).wf(),
            final(self).results() == old(self).results(),
            (if old(self).remaining().len() == 0 {
                &&& r == Ok::<Option<(usize, T)>, PoolError>(None)
                &&& final(self).remaining() == old(self).remaining()
            } else {
                &&& final(self).remaining() == old(self).remaining().subrange(
                    1,
                    old(self).remaining().len() as int,
                )
                &&& (match old(self).remaining()[0].data {
                    Some(u) => r == Ok::<Option<(usize, T)>, PoolError>(
                        Some((old(self).remaining()[0].idx, u)),
                    ),
                    None => r == Err::<Option<(usize, T)>, PoolError>(PoolError::ElementFailure),
                })
            }),
    {
        if self.packets.len() == 0 {
            Ok(None)
        } else {
            let p = self.packets.remove(0);
            match p.data {
                Some(u) => Ok(Some((p.idx, u))),
                None => Err(PoolError::ElementFailure),
            }
        }
    }

    /// Hand the next completion packet itself to the reordering layer, or
    /// `None` once the stream is drained.
    pub(crate) fn next_packet(&mut self) -> (r: Option<Packet<T>>)
        requires
            old(self).wf(),
        ensures
            final(self).wf(),
            final(self).results() == old(self).results(),
            (match r {
                Some(p) => {
                    &&& old(self).remaining().len() > 0
                    &&& p == old(self).remaining()[0]
                    &&& final(self).remaining() == old(self).remaining().subrange(
                        1,
                        old(self).remaining().len() as int,
                    )
                },
                None => {
                    &&& old(self).remaining().len() == 0
                    &&& final(self).remaining() == old(self).remaining()
                },
            }),
    {
        if self.packets.len() == 0 {
            None
        } else {
            Some(self.packets.remove(0))
        }
    }
}

/// A fresh unordered stream holds exactly the batch's completions: one
/// packet for every dispatched position — whatever order the completions
/// arrived in — and nothing else, each carrying the payload recorded for
/// its position.
pub proof fn lemma_unordered_exactly_the_batch<T>(m: UnorderedParMap<T>)
    requires
        m.wf(),
        m.complete(),
    ensures
        m.remaining().len() == m.results().len(),
        forall|j: int| 0 <= j < m.results().len() ==> #[trigger] has_idx(m.remaining(), j),
        forall|i: int|
            0 <= i < m.remaining().len() ==> (#[trigger] m.remaining()[i]).idx
                < m.results().len() && m.remaining()[i].data
                == m.results()[m.remaining()[i].idx as int],
        forall|i: int, j: int|
            0 <= i < j < m.remaining().len() ==> (#[trigger] m.remaining()[i]).idx != (
            #[trigger] m.remaining()[j]).idx,
{
}

/// The ordered result stream of one batch: the same packets as the
/// unordered stream, but replayed strictly in input order. Out-of-order
/// completions wait in the reordering buffer until the position owed next
/// has arrived.
pub struct ParMap<T> {
    unordered: UnorderedParMap<T>,
    heap: Reorderer<T>,
}

impl<T> ParMap<T> {
    /// The payload produced for each dispatched position, by position.
    pub closed spec fn results(self) -> Seq<Option<T>> {
        self.unordered.results()
    }

    /// The position owed to the caller next.
    pub closed spec fn cursor(self) -> int {
        self.heap.cursor()
    }

    /// Every position from the cursor up to the end of the batch sits in
    /// exactly one place — the reordering buffer or the unordered stream —
    /// and carries the payload recorded for it.
    pub closed spec fn wf(self) -> bool {
        let rem = self.unordered.remaining();
        let buf = self.heap.buffered();
        let n = self.unordered.results().len() as int;
        &&& self.unordered.wf()
        &&& self.heap.wf()
        &&& 0 <= self.cursor() <= n
        &&& forall|i: int|
            0 <= i < buf.len() ==> (#[trigger] buf[i].idx < n && buf[i].data
                == self.unordered.results()[buf[i].idx as int])
        &&& forall|j: int| !(#[trigger] has_idx(buf, j) && has_idx(rem, j))
        &&& forall|j: int|
            self.cursor() <= j < n ==> #[trigger] has_idx(buf, j) || has_idx(rem, j)
        &&& forall|i: int| 0 <= i < rem.len() ==> #[trigger] rem[i].idx >= self.cursor()
    }

    /// Wrap a fresh unordered stream; nothing has been replayed yet.
    pub(crate) fn from_unordered(u: UnorderedParMap<T>) -> (r: ParMap<T>)
        requires
            u.wf(),
            u.complete(),
        ensures
            r.wf(),
            r.results() == u.results(),
            r.cursor() == 0,
    {
        ParMap { unordered: u, heap: Reorderer::new() }
    }

    /// Yield the payload of the position owed next, pulling and buffering
    /// out-of-order completions until it arrives. The payloads come back
    /// exactly in input order; a failure sentinel is reported as
    /// `ElementFailure`; after the last position the stream stays at
    /// `Ok(None)`.
    pub fn next(&mut self) -> (r: Result<Option<T>, PoolError>)
        requires
            old(self).wf(),
        ensures
            final(self).wf(),
            final(self).results() == old(self).results(),
            (if old(self).cursor() >= old(self).results().len() {
                r == Ok::<Option<T>, PoolError>(None) && final(self).cursor() == old(self).cursor()
            } else {
                &&& final(self).cursor() == old(self).cursor() + 1
                &&& (match old(self).results()[old(self).cursor()] {
                    Some(_) => r == Ok::<Option<T>, PoolError>(
                        old(self).results()[old(self).cursor()],
                    ),
                    None => r == Err::<Option<T>, PoolError>(PoolError::ElementFailure),
                })
            }),
    {
        loop
            invariant
                self.wf(),
                self.results() == old(self).results(),
                self.cursor() == old(self).cursor(),
            decreases self.unordered.remaining().len() + 1,
        {
            if self.heap.ready() {
                let ghost pre = *self;
                proof {
                    assert(pre.heap.buffered()[0].idx < pre.results().len());
                }
                let p = self.heap.pop_ready();
                proof {
                    let buf = pre.heap.buffered();
                    let newbuf = self.heap.buffered();
                    let rem = self.unordered.remaining();
                    let n = self.results().len() as int;
                    assert forall|j: int| #[trigger] has_idx(newbuf, j) implies has_idx(buf, j) by {
                        let i = choose|i: int| 0 <= i < newbuf.len() && #[trigger] newbuf[i].idx
                            == j;
                        assert(buf[i + 1].idx == j);
                    }
                    assert forall|j: int|
                        self.cursor() <= j < n implies #[trigger] has_idx(newbuf, j) || has_idx(
                        rem,
                        j,
                    ) by {
                        if has_idx(buf, j) {
                            let i = choose|i: int| 0 <= i < buf.len() && #[trigger] buf[i].idx == j;
                            if i == 0 {
                                assert(j == pre.cursor());
                            } else {
                                assert(newbuf[i - 1].idx == j);
                            }
                        }
                    }
                    assert(has_idx(buf, pre.cursor())) by {
                        assert(buf[0].idx == pre.cursor());
                    }
                    assert forall|i: int| 0 <= i < rem.len() implies #[trigger] rem[i].idx
                        >= self.cursor() by {
                        assert(has_idx(rem, rem[i].idx as int));
                        assert(rem[i].idx != pre.cursor());
                    }
                }
                match p.data {
                    Some(u) => {
                        return Ok(Some(u));
                    },
                    None => {
                        return Err(PoolError::ElementFailure);
                    },
                }
            }
            let ghost pre = *self;
            let got = self.unordered.next_packet();
            match got {
                Some(p) => {
                    let ghost pk = p;
                    proof {
                        let rem = pre.unordered.remaining();
                        assert(has_idx(rem, pk.idx as int)) by {
                            assert(rem[0].idx == pk.idx);
                        }
                        assert(pk.idx >= pre.cursor());
                        assert(!has_idx(pre.heap.buffered(), pk.idx as int));
                    }
                    self.heap.insert(p);
                    proof {
                        let oldrem = pre.unordered.remaining();
                        let rem = self.unordered.remaining();
                        let buf = pre.heap.buffered();
                        let newbuf = self.heap.buffered();
                        let n = self.results().len() as int;
                        assert(pk.idx < n && pk.data == self.results()[pk.idx as int]) by {
                            assert(oldrem[0] == pk);
                        }
                        assert forall|i: int|
                            0 <= i < newbuf.len() implies (#[trigger] newbuf[i].idx < n
                            && newbuf[i].data == self.results()[newbuf[i].idx as int]) by {
                            if newbuf[i] != pk {
                                assert(buf.contains(newbuf[i]));
                                let k = choose|k: int| 0 <= k < buf.len() && buf[k] == newbuf[i];
                                assert(buf[k].idx < n);
                            }
                        }
                        assert forall|j: int| has_idx(rem, j) implies has_idx(oldrem, j) && j
                            != pk.idx by {
                            let i = choose|i: int| 0 <= i < rem.len() && #[trigger] rem[i].idx
                                == j;
                            assert(oldrem[i + 1].idx == j);
                            assert(oldrem[0].idx != oldrem[i + 1].idx);
                        }
                        assert forall|j: int| !(#[trigger] has_idx(newbuf, j) && has_idx(rem, j))
                            by {
                            if has_idx(newbuf, j) && has_idx(rem, j) {
                                assert(has_idx(oldrem, j) && j != pk.idx);
                                assert(has_idx(buf, j) || j == pk.idx);
                            }
                        }
                        assert forall|j: int|
                            self.cursor() <= j < n implies #[trigger] has_idx(newbuf, j)
                            || has_idx(rem, j) by {
                            if has_idx(buf, j) {
                                assert(has_idx(newbuf, j));
                            } else if has_idx(oldrem, j) {
                                let i = choose|i: int|
                                    0 <= i < oldrem.len() && #[trigger] oldrem[i].idx == j;
                                if i == 0 {
                                    assert(j == pk.idx);
                                    assert(has_idx(newbuf, j));
                                } else {
                                    assert(rem[i - 1].idx == j);
                                }
                            }
                        }
                        assert forall|i: int| 0 <= i < rem.len() implies #[trigger] rem[i].idx
                            >= self.cursor() by {
                            assert(oldrem[i + 1].idx == rem[i].idx);
                        }
                    }
                },
                None => {
                    proof {
                        let buf = self.heap.buffered();
                        let n = self.results().len() as int;
                        if self.cursor() < n {
                            assert(has_idx(buf, self.cursor()));
                            let i = choose|i: int|
                                0 <= i < buf.len() && #[trigger] buf[i].idx == self.cursor();
                            if i > 0 {
                                assert(buf[0].idx < buf[i].idx);
                            }
                            assert(buf[0].idx == self.cursor());
                        }
                    }
                    return Ok(None);
                },
            }
        }
    }
}

} // verus!
