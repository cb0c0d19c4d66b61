//! Two typed faces of the list: one of bare words (addresses), one of objects.
use vstd::prelude::*;
use crate::lflist::List;

verus! {

/// Added to a word to make its tag, so that no word collides with the two
/// reserved flag values.
pub const SLOT_DATA_OFFSET: usize = 5;

/// The tag of every object of an `ObjectList`: all bits set, "valid, untagged".
pub const OBJECT_TAG: usize = usize::MAX;

/// Slots per page of the lists that `new` makes.
pub const DEFAULT_BUFFER_CAP: usize = 256;

/// The word a tag stands for.
pub open spec fn word_of(p: (usize, ())) -> usize {
    (p.0 - SLOT_DATA_OFFSET) as usize
}

/// The object of an item.
pub open spec fn object_of<T>(p: (usize, T)) -> T {
    p.1
}

/// A stack of words.
pub struct WordList {
    inner: List<()>,
}

impl View for WordList {
    type V = Seq<usize>;

    /// The words, bottom of the stack first.
    closed spec fn view(&self) -> Seq<usize> {
        self.inner@.map_values(|p: (usize, ())| word_of(p))
    }
}

impl WordList {
    /// The list is well formed and every tag in it is a shifted word.
    pub closed spec fn wf(&self) -> bool {
        &&& self.inner.wf()
        &&& forall|i: int| 0 <= i < self.inner@.len() ==> (#[trigger] self.inner@[i]).0 >= SLOT_DATA_OFFSET
    }

    /// The slots per page of pages this list makes.
    pub closed spec fn buffer_capacity(&self) -> nat {
        self.inner.buffer_capacity()
    }

    /// The order in which `drop_out_all` hands the words out.
    pub closed spec fn drain_order(&self) -> Seq<usize> {
        self.inner.drain_order().map_values(|p: (usize, ())| word_of(p))
    }

    /// An empty list with pages of `cap` slots.
    pub fn with_capacity(cap: usize) -> (r: Self)
        requires
            cap > 0,
        ensures
            r.wf(),
            r@ == Seq::<usize>::empty(),
            r.buffer_capacity() == cap,
    {
        let inner: List<()> = List::new(cap);
        let r = WordList { inner };
        assert(r@ =~= Seq::<usize>::empty());
        r
    }

    /// An empty list with pages of `DEFAULT_BUFFER_CAP` slots.
    pub fn new() -> (r: Self)
        ensures
            r.wf(),
            r@ == Seq::<usize>::empty(),
            r.buffer_capacity() == DEFAULT_BUFFER_CAP,
    {
        Self::with_capacity(DEFAULT_BUFFER_CAP)
    }

    /// Puts `data` on top.
    pub fn push(&mut self, data: usize)
        requires
            old(self).wf(),
            data <= usize::MAX - SLOT_DATA_OFFSET,
            old(self)@.len() < usize::MAX,
        ensures
            final(self).wf(),
            final(self).buffer_capacity() == old(self).buffer_capacity(),
            final(self)@ == old(self)@.push(data),
    {
        self.inner.push(data + SLOT_DATA_OFFSET, ());
        assert(self@ =~= old(self)@.push(data));
    }

    /// `push` for a caller that holds the only handle on the list.
    pub fn exclusive_push(&mut self, data: usize)
        requires
            old(self).wf(),
            data <= usize::MAX - SLOT_DATA_OFFSET,
            old(self)@.len() < usize::MAX,
        ensures
            final(self).wf(),
            final(self).buffer_capacity() == old(self).buffer_capacity(),
            final(self)@ == old(self)@.push(data),
    {
        self.inner.exclusive_push(data + SLOT_DATA_OFFSET, ());
        assert(self@ =~= old(self)@.push(data));
    }

    /// Takes the top word off, or gives `None` when the list is empty.
    pub fn pop(&mut self) -> (r: Option<usize>)
        requires
            old(self).wf(),
        ensures
            final(self).wf(),
            final(self).buffer_capacity() == old(self).buffer_capacity(),
            old(self)@.len() == 0 ==> r == None::<usize> && final(self)@ == old(self)@,
            old(self)@.len() > 0 ==> r == Some(old(self)@.last()) && final(self)@ == old(self)@.drop_last(),
    {
        match self.inner.pop() {
            Some(item) => {
                assert(self.inner@ =~= old(self).inner@.drop_last());
                assert(self@ =~= old(self)@.drop_last());
                Some(item.0 - SLOT_DATA_OFFSET)
            },
            None => None,
        }
    }

    /// Detaches every word at once. Gives `None` when the list was empty, else
    /// the words in `drain_order()`.
    pub fn drop_out_all(&mut self) -> (r: Option<Vec<usize>>)
        requires
            old(self).wf(),
        ensures
            final(self).wf(),
            final(self).buffer_capacity() == old(self).buffer_capacity(),
            final(self)@.len() == 0,
            old(self)@.len() == 0 ==> r.is_none() && final(self)@ == old(self)@,
            old(self)@.len() > 0 ==> r.is_some() && r.unwrap()@ == old(self).drain_order(),
    {
        proof {
            old(self).inner.lemma_drain_order_same_items();
        }
        match self.inner.drop_out_all() {
            None => None,
            Some(items) => {
                let ghost all = old(self).inner.drain_order();
                let mut out: Vec<usize> = Vec::new();
                let mut i: usize = 0;
                while i < items.len()
                    invariant
                        items@ == all,
                        all.to_multiset() == old(self).inner@.to_multiset(),
                        forall|j: int| 0 <= j < old(self).inner@.len() ==> (#[trigger] old(self).inner@[j]).0 >= SLOT_DATA_OFFSET,
                        i <= items@.len(),
                        out@ == all.take(i as int).map_values(|p: (usize, ())| word_of(p)),
                    decreases items@.len() - i,
                {
                    proof {
                        vstd::seq_lib::to_multiset_contains(all, all[i as int]);
                        vstd::seq_lib::to_multiset_contains(old(self).inner@, all[i as int]);
                        assert(all.contains(all[i as int]));
                    }
                    out.push(items[i].0 - SLOT_DATA_OFFSET);
                    assert(all.take(i + 1) =~= all.take(i as int).push(all[i as int]));
                    assert(out@ =~= all.take(i + 1).map_values(|p: (usize, ())| word_of(p)));
                    i = i + 1;
                }
                assert(all.take(i as int) =~= all);
                assert(self@ =~= Seq::<usize>::empty());
                Some(out)
            },
        }
    }

    /// Moves every word of `other` on top of this list's words, leaving `other` empty.
    pub fn prepend_with(&mut self, other: &mut Self)
        requires
            old(self).wf(),
            old(other).wf(),
            old(self)@.len() + old(other)@.len() <= usize::MAX,
        ensures
            final(self).wf(),
            final(other).wf(),
            final(self).buffer_capacity() == old(self).buffer_capacity(),
            final(other).buffer_capacity() == old(other).buffer_capacity(),
            final(self)@ == old(self)@ + old(other)@,
            final(other)@.len() == 0,
    {
        self.inner.prepend_with(&mut other.inner);
        assert(self@ =~= old(self)@ + old(other)@);
        assert forall|i: int| 0 <= i < self.inner@.len() implies (#[trigger] self.inner@[i]).0 >= SLOT_DATA_OFFSET by {
            if i >= old(self).inner@.len() {
                assert(self.inner@[i] == old(other).inner@[i - old(self).inner@.len()]);
            }
        }
    }

    /// The number of words held.
    pub fn count(&self) -> (r: usize)
        requires
            self.wf(),
        ensures
            r == self@.len(),
    {
        self.inner.count()
    }
}

/// A stack of objects, each held under `OBJECT_TAG`.
pub struct ObjectList<T> {
    inner: List<T>,
}

impl<T> View for ObjectList<T> {
    type V = Seq<T>;

    /// The objects, bottom of the stack first.
    closed spec fn view(&self) -> Seq<T> {
        self.inner@.map_values(|p: (usize, T)| object_of(p))
    }
}

impl<T> ObjectList<T> {
    /// The underlying list is well formed.
    pub closed spec fn wf(&self) -> bool {
        self.inner.wf()
    }

    /// The slots per page of pages this list makes.
    pub closed spec fn buffer_capacity(&self) -> nat {
        self.inner.buffer_capacity()
    }

    /// The order in which `drop_out_all` hands the objects out.
    pub closed spec fn drain_order(&self) -> Seq<T> {
        self.inner.drain_order().map_values(|p: (usize, T)| object_of(p))
    }

    /// An empty list with pages of `cap` slots.
    pub fn with_capacity(cap: usize) -> (r: Self)
        requires
            cap > 0,
        ensures
            r.wf(),
            r@ == Seq::<T>::empty(),
            r.buffer_capacity() == cap,
    {
        let inner: List<T> = List::new(cap);
        let r = ObjectList { inner };
        assert(r@ =~= Seq::<T>::empty());
        r
    }

    /// An empty list with pages of `DEFAULT_BUFFER_CAP` slots.
    pub fn new() -> (r: Self)
        ensures
            r.wf(),
            r@ == Seq::<T>::empty(),
            r.buffer_capacity() == DEFAULT_BUFFER_CAP,
    {
        Self::with_capacity(DEFAULT_BUFFER_CAP)
    }

    /// Puts `data` on top.
    pub fn push(&mut self, data: T)
        requires
            old(self).wf(),
            old(self)@.len() < usize::MAX,
        ensures
            final(self).wf(),
            final(self).buffer_capacity() == old(self).buffer_capacity(),
            final(self)@ == old(self)@.push(data),
    {
        self.inner.push(OBJECT_TAG, data);
        assert(self@ =~= old(self)@.push(data));
    }

    /// `push` for a caller that holds the only handle on the list.
    pub fn exclusive_push(&mut self, data: T)
        requires
            old(self).wf(),
            old(self)@.len() < usize::MAX,
        ensures
            final(self).wf(),
            final(self).buffer_capacity() == old(self).buffer_capacity(),
            final(self)@ == old(self)@.push(data),
    {
        self.inner.exclusive_push(OBJECT_TAG, data);
        assert(self@ =~= old(self)@.push(data));
    }

    /// Takes the top object off, or gives `None` when the list is empty.
    /// `_data` plays no part.
    pub fn pop(&mut self, _data: usize) -> (r: Option<T>)
        requires
            old(self).wf(),
        ensures
            final(self).wf(),
            final(self).buffer_capacity() == old(self).buffer_capacity(),
            old(self)@.len() == 0 ==> r == None::<T> && final(self)@ == old(self)@,
            old(self)@.len() > 0 ==> r == Some(old(self)@.last()) && final(self)@ == old(self)@.drop_last(),
    {
        match self.inner.pop() {
            Some(item) => {
                assert(self@ =~= old(self)@.drop_last());
                Some(item.1)
            },
            None => None,
        }
    }

    /// Detaches every object at once. Gives `None` when the list was empty, else
    /// the objects in `drain_order()`.
    pub fn drop_out_all(&mut self) -> (r: Option<Vec<T>>)
        requires
            old(self).wf(),
        ensures
            final(self).wf(),
            final(self).buffer_capacity() == old(self).buffer_capacity(),
            final(self)@.len() == 0,
            old(self)@.len() == 0 ==> r.is_none() && final(self)@ == old(self)@,
            old(self)@.len() > 0 ==> r.is_some() && r.unwrap()@ == old(self).drain_order(),
    {
        match self.inner.drop_out_all() {
            None => None,
            Some(items) => {
                let ghost all = old(self).inner.drain_order().map_values(|p: (usize, T)| object_of(p));
                let mut items = items;
                let mut reversed: Vec<T> = Vec::new();
                while items.len() > 0
                    invariant
                        items@.map_values(|p: (usize, T)| object_of(p)) + reversed@.reverse() == all,
                    decreases items@.len(),
                {
                    let ghost before = items@;
                    let ghost rev_before = reversed@;
                    let item = items.pop().unwrap();
                    reversed.push(item.1);
                    assert(before =~= items@.push(item));
                    assert(reversed@.reverse() =~= seq![item.1] + rev_before.reverse());
                    assert(before.map_values(|p: (usize, T)| object_of(p))
                        =~= items@.map_values(|p: (usize, T)| object_of(p)).push(item.1));
                    assert(before.map_values(|p: (usize, T)| object_of(p)) + rev_before.reverse()
                        =~= items@.map_values(|p: (usize, T)| object_of(p)) + reversed@.reverse());
                }
                assert(items@.map_values(|p: (usize, T)| object_of(p)) =~= Seq::<T>::empty());
                assert(reversed@.reverse() =~= all);
                let mut out: Vec<T> = Vec::new();
                while reversed.len() > 0
                    invariant
                        out@ + reversed@.reverse() == all,
                    decreases reversed@.len(),
                {
                    let ghost rev_before = reversed@;
                    let o = reversed.pop().unwrap();
                    out.push(o);
                    assert(rev_before.reverse() =~= seq![o] + reversed@.reverse());
                    assert(out@ + reversed@.reverse() =~= all);
                }
                assert(reversed@.reverse() =~= Seq::<T>::empty());
                assert(out@ =~= all);
                assert(self@ =~= Seq::<T>::empty());
                Some(out)
            },
        }
    }

    /// Moves every object of `other` on top of this list's objects, leaving `other` empty.
    pub fn prepend_with(&mut self, other: &mut Self)
        requires
            old(self).wf(),
            old(other).wf(),
            old(self)@.len() + old(other)@.len() <= usize::MAX,
        ensures
            final(self).wf(),
            final(other).wf(),
            final(self).buffer_capacity() == old(self).buffer_capacity(),
            final(other).buffer_capacity() == old(other).buffer_capacity(),
            final(self)@ == old(self)@ + old(other)@,
            final(other)@.len() == 0,
    {
        self.inner.prepend_with(&mut other.inner);
        assert(self@ =~= old(self)@ + old(other)@);
    }

    /// The number of objects held.
    pub fn count(&self) -> (r: usize)
        requires
            self.wf(),
        ensures
            r == self@.len(),
    {
        self.inner.count()
    }
}

} // verus!
