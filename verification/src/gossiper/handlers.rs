//! The message handlers of a gossiper, with a record of what they were run on.
use crate::bytes::copy_bytes;
use vstd::prelude::*;

verus! {

/// Message handlers, each of which takes any bytes. `run_at` is the only way to
/// run one, and it leaves an entry in the log.
pub struct HandlerSet<H: Fn(Vec<u8>)> {
    items: Vec<H>,
    log: Ghost<Seq<(int, Seq<u8>)>>,
}

impl<H: Fn(Vec<u8>)> HandlerSet<H> {
    #[verifier::type_invariant]
    spec fn take_any(self) -> bool {
        forall|i: int| 0 <= i < self.items@.len() ==> super::takes_any(#[trigger] self.items@[i])
    }

    /// The handlers in the order of their registration.
    pub closed spec fn list(&self) -> Seq<H> {
        self.items@
    }

    /// Every run so far, in order: the place of the handler in the list and the
    /// bytes that it got.
    pub closed spec fn runs(&self) -> Seq<(int, Seq<u8>)> {
        self.log@
    }

    pub fn new() -> (r: Self)
        ensures
            r.list() == Seq::<H>::empty(),
            r.runs() == Seq::<(int, Seq<u8>)>::empty(),
    {
        HandlerSet { items: Vec::new(), log: Ghost(Seq::empty()) }
    }

    pub fn len(&self) -> (r: usize)
        ensures
            r == self.list().len(),
    {
        self.items.len()
    }

    pub fn push(&mut self, handler: H)
        requires
            super::takes_any(handler),
        ensures
            final(self).list() == old(self).list().push(handler),
            final(self).runs() == old(self).runs(),
    {
        proof {
            use_type_invariant(&*self);
        }
        let mut items: Vec<H> = Vec::new();
        std::mem::swap(&mut items, &mut self.items);
        items.push(handler);
        self.items = items;
    }

    /// Run one handler on a copy of the bytes.
    pub fn run_at(&mut self, i: usize, data: &[u8])
        requires
            i < old(self).list().len(),
        ensures
            final(self).list() == old(self).list(),
            final(self).runs() == old(self).runs().push((i as int, data@)),
            super::ran_on(old(self).list()[i as int], data@),
    {
        proof {
            use_type_invariant(&*self);
        }
        let copy = copy_bytes(data);
        let ghost given = copy;
        assert(super::takes_any(self.items@[i as int]));
        let handler = &self.items[i];
        handler(copy);
        assert(call_ensures(self.items@[i as int], (given,), ()));
        self.log = Ghost(self.log@.push((i as int, data@)));
    }
}

} // verus!
