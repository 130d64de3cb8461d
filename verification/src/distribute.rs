//! The pull-based distribution protocol's arbiter.
//!
//! Idle workers request work; the supervisor answers each request with the
//! next not-yet-dispatched element of the batch, tagged with its position in
//! the input, or with an end-of-work marker once the batch is exhausted. The
//! `Distributor` is that single arbiter: it owns the sequence of elements and
//! hands each out exactly once, in input order, whatever order the requests
//! arrive in.

use vstd::prelude::*;

verus! {

/// The supervisor's view of one batch: the elements not yet handed out,
/// together with the position the next one will carry.
pub struct Distributor<T> {
    elems: Vec<T>,
    next_idx: usize,
    source: Ghost<Seq<T>>,
}

impl<T> Distributor<T> {
    /// The whole input batch, as it was when the distributor was built.
    pub closed spec fn source(self) -> Seq<T> {
        self.source@
    }

    /// The position of the next element to hand out; equals `source().len()`
    /// once the batch is exhausted.
    pub closed spec fn cursor(self) -> int {
        self.next_idx as int
    }

    /// The undispatched elements are exactly the source's suffix from the
    /// cursor onward.
    pub closed spec fn wf(self) -> bool {
        &&& self.source@.len() <= usize::MAX
        &&& self.next_idx <= self.source@.len()
        &&& self.elems@ == self.source@.subrange(self.next_idx as int, self.source@.len() as int)
    }

    /// Take ownership of a batch; nothing has been dispatched yet.
    pub fn new(elems: Vec<T>) -> (d: Distributor<T>)
        ensures
            d.wf(),
            d.source() == elems@,
            d.cursor() == 0,
    {
        let ghost source = elems@;
        let n = elems.len();
        proof {
            assert(source.len() == n);
            assert(elems@ == source.subrange(0, source.len() as int));
        }
        Distributor { elems, next_idx: 0, source: Ghost(source) }
    }

    /// Answer one worker's request for work: the next element with its
    /// position, or `None` once every element has been handed out.
    pub fn request(&mut self) -> (a: Option<(usize, T)>)
        requires
            old(self).wf(),
        ensures
            final(self).wf(),
            final(self).source() == old(self).source(),
            (match a {
                Some(p) => {
                    &&& old(self).cursor() < old(self).source().len()
                    &&& p.0 == old(self).cursor()
                    &&& p.1 == old(self).source()[old(self).cursor()]
                    &&& final(self).cursor() == old(self).cursor() + 1
                },
                None => {
                    &&& old(self).cursor() == old(self).source().len()
                    &&& final(self).cursor() == old(self).cursor()
                },
            }),
    {
        if self.elems.len() == 0 {
            None
        } else {
            proof {
                assert(old(self).elems@.len() ==
                    old(self).source@.len() - old(self).next_idx);
            }
            let x = self.elems.remove(0);
            let i = self.next_idx;
            self.next_idx = self.next_idx + 1;
            proof {
                assert(self.elems@ =~= self.source@.subrange(
                    self.next_idx as int,
                    self.source@.len() as int,
                ));
            }
            Some((i, x))
        }
    }
}

} // verus!
