//! One page of a list: a fixed number of slots, each a flag word and a payload.
use vstd::prelude::*;

verus! {

/// Flag word of a slot that holds nothing.
pub const EMPTY_SLOT: usize = 0;

/// Flag word of a reserved slot whose payload is not to be used.
pub const SENTINEL_SLOT: usize = 1;

/// A flag word that marks its slot as holding a payload.
pub open spec fn is_tag(f: usize) -> bool {
    f != EMPTY_SLOT && f != SENTINEL_SLOT
}

/// The payload-carrying slots among the first `data.len()` slots, in slot order.
pub open spec fn slot_items<T>(flags: Seq<usize>, data: Seq<T>) -> Seq<(usize, T)>
    decreases data.len(),
{
    if data.len() == 0 {
        Seq::empty()
    } else {
        let n = (data.len() - 1) as int;
        let rest = slot_items(flags.take(n), data.take(n));
        if is_tag(flags[n]) {
            rest.push((flags[n], data[n]))
        } else {
            rest
        }
    }
}

/// A page of `capacity` slots. Slots below `cursor` are reserved, the others empty.
pub(crate) struct Buffer<T> {
    pub(crate) cursor: usize,
    pub(crate) capacity: usize,
    pub(crate) flags: Vec<usize>,
    pub(crate) data: Vec<T>,
}

impl<T> Buffer<T> {
    pub(crate) open spec fn wf(&self) -> bool {
        &&& 0 < self.capacity
        &&& self.cursor <= self.capacity
        &&& self.flags@.len() == self.capacity
        &&& self.data@.len() == self.cursor
        &&& forall|i: int| 0 <= i < self.cursor ==> self.flags@[i] != EMPTY_SLOT
        &&& forall|i: int| self.cursor <= i < self.capacity ==> self.flags@[i] == EMPTY_SLOT
    }

    /// The items the page holds, oldest slot first.
    pub(crate) open spec fn items(&self) -> Seq<(usize, T)> {
        slot_items(self.flags@.take(self.cursor as int), self.data@)
    }

    /// A fresh page: every flag empty.
    pub(crate) fn new(capacity: usize) -> (r: Self)
        requires
            capacity > 0,
        ensures
            r.wf(),
            r.capacity == capacity,
            r.cursor == 0,
            r.items() == Seq::<(usize, T)>::empty(),
    {
        let mut flags: Vec<usize> = Vec::new();
        let mut i: usize = 0;
        while i < capacity
            invariant
                i <= capacity,
                flags@.len() == i,
                forall|j: int| 0 <= j < i ==> flags@[j] == EMPTY_SLOT,
            decreases capacity - i,
        {
            flags.push(EMPTY_SLOT);
            i = i + 1;
        }
        Buffer { cursor: 0, capacity, flags, data: Vec::new() }
    }

    pub(crate) fn is_full(&self) -> (r: bool)
        requires
            self.wf(),
        ensures
            r == (self.cursor == self.capacity),
    {
        self.cursor >= self.capacity
    }

    /// Reserves the next slot, writes the payload, then publishes the tag.
    pub(crate) fn put(&mut self, tag: usize, payload: T)
        requires
            old(self).wf(),
            old(self).cursor < old(self).capacity,
            is_tag(tag),
        ensures
            final(self).wf(),
            final(self).capacity == old(self).capacity,
            final(self).cursor == old(self).cursor + 1,
            final(self).items() == old(self).items().push((tag, payload)),
    {
        let s = self.cursor;
        self.cursor = s + 1;
        self.data.push(payload);
        self.flags.set(s, tag);
        assert(self.flags@.take(s as int + 1).take(s as int) =~= old(self).flags@.take(s as int));
        assert(self.data@.take(s as int) =~= old(self).data@);
    }

    /// Empties the highest reserved slot and hands back its flag and payload.
    pub(crate) fn take_top(&mut self) -> (r: (usize, T))
        requires
            old(self).wf(),
            old(self).cursor > 0,
        ensures
            final(self).wf(),
            final(self).capacity == old(self).capacity,
            final(self).cursor == old(self).cursor - 1,
            r.0 != EMPTY_SLOT,
            is_tag(r.0) ==> old(self).items() == final(self).items().push(r),
            !is_tag(r.0) ==> old(self).items() == final(self).items(),
    {
        let s = self.cursor;
        let flag = self.flags[s - 1];
        self.flags.set(s - 1, EMPTY_SLOT);
        let payload = self.data.pop().unwrap();
        self.cursor = s - 1;
        assert(self.flags@.take(s - 1) =~= old(self).flags@.take(s as int).take(s - 1));
        assert(self.data@ =~= old(self).data@.take(s - 1));
        (flag, payload)
    }

    /// Moves every payload-carrying slot, in slot order, to the end of `out`,
    /// and resets the page to empty.
    pub(crate) fn flush_into(&mut self, out: &mut Vec<(usize, T)>)
        requires
            old(self).wf(),
        ensures
            final(self).wf(),
            final(self).capacity == old(self).capacity,
            final(self).cursor == 0,
            final(out)@ == old(out)@ + old(self).items(),
    {
        let mut taken: Vec<(usize, T)> = Vec::new();
        while self.cursor > 0
            invariant
                self.wf(),
                self.capacity == old(self).capacity,
                self.items() + taken@.reverse() == old(self).items(),
            decreases self.cursor,
        {
            let ghost before = self.items();
            let ghost taken_before = taken@;
            let item = self.take_top();
            if item.0 != SENTINEL_SLOT {
                taken.push(item);
                assert(taken@.reverse() =~= seq![item] + taken_before.reverse());
                assert(before + taken_before.reverse() =~= self.items() + taken@.reverse());
            }
        }
        assert(self.items() =~= Seq::<(usize, T)>::empty()) by {
            assert(self.data@.len() == 0);
        }
        let ghost start = out@;
        while taken.len() > 0
            invariant
                out@ + taken@.reverse() == start + old(self).items(),
            decreases taken@.len(),
        {
            let ghost taken_before = taken@;
            let item = taken.pop().unwrap();
            out.push(item);
            assert(taken_before.reverse() =~= seq![item] + taken@.reverse());
            assert(out@ + taken@.reverse() =~= start + old(self).items());
        }
        assert(taken@.reverse() =~= Seq::<(usize, T)>::empty());
    }
}

} // verus!
