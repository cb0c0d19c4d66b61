//! The paged stack: a chain of pages, newest last, that pushes and pops
//! work on from the newest page down. Operations take the list by `&mut`:
//! callers that share one list between threads serialise their access to it.
use vstd::prelude::*;
use crate::buffer::{Buffer, is_tag, SENTINEL_SLOT};

verus! {

/// Every item a chain of pages holds, oldest page first; the top of the stack is last.
pub(crate) open spec fn chain_items<T>(bufs: Seq<Buffer<T>>) -> Seq<(usize, T)>
    decreases bufs.len(),
{
    if bufs.len() == 0 {
        Seq::empty()
    } else {
        chain_items(bufs.drop_last()) + bufs.last().items()
    }
}

/// The order in which a bulk drain hands items out: newest page first,
/// each page in slot order.
pub(crate) open spec fn drain_items<T>(bufs: Seq<Buffer<T>>) -> Seq<(usize, T)>
    decreases bufs.len(),
{
    if bufs.len() == 0 {
        Seq::empty()
    } else {
        bufs.last().items() + drain_items(bufs.drop_last())
    }
}

/// How many reserved slots and pages a chain has; pops only lower it.
pub(crate) open spec fn chain_slots<T>(bufs: Seq<Buffer<T>>) -> nat
    decreases bufs.len(),
{
    if bufs.len() == 0 {
        0
    } else {
        (chain_slots(bufs.drop_last()) + bufs.last().cursor + 1) as nat
    }
}

proof fn lemma_chain_push<T>(bufs: Seq<Buffer<T>>, b: Buffer<T>)
    ensures
        chain_items(bufs.push(b)) == chain_items(bufs) + b.items(),
        chain_slots(bufs.push(b)) == chain_slots(bufs) + b.cursor + 1,
        drain_items(bufs.push(b)) == b.items() + drain_items(bufs),
{
    assert(bufs.push(b).drop_last() =~= bufs);
}

proof fn lemma_chain_items_add<T>(a: Seq<Buffer<T>>, b: Seq<Buffer<T>>)
    ensures
        chain_items(a + b) == chain_items(a) + chain_items(b),
    decreases b.len(),
{
    if b.len() == 0 {
        assert(a + b =~= a);
        assert(chain_items(a) + chain_items(b) =~= chain_items(a));
    } else {
        assert((a + b).drop_last() =~= a + b.drop_last());
        lemma_chain_items_add(a, b.drop_last());
        assert(chain_items(a + b) =~= chain_items(a) + chain_items(b));
    }
}

proof fn lemma_drain_same_items<T>(bufs: Seq<Buffer<T>>)
    ensures
        drain_items(bufs).to_multiset() == chain_items(bufs).to_multiset(),
        drain_items(bufs).len() == chain_items(bufs).len(),
    decreases bufs.len(),
{
    broadcast use vstd::seq_lib::lemma_multiset_commutative;
    broadcast use vstd::seq_lib::to_multiset_len;

    if bufs.len() > 0 {
        lemma_drain_same_items(bufs.drop_last());
        let a = chain_items(bufs.drop_last());
        let b = bufs.last().items();
        assert(a.to_multiset().add(b.to_multiset()) =~= b.to_multiset().add(a.to_multiset()));
    }
}

/// A stack of `(tag, payload)` items kept in a chain of pages of `buffer_cap` slots.
pub struct List<T> {
    buffers: Vec<Buffer<T>>,
    count: usize,
    buffer_cap: usize,
}

impl<T> View for List<T> {
    type V = Seq<(usize, T)>;

    /// The items, bottom of the stack first.
    closed spec fn view(&self) -> Seq<(usize, T)> {
        chain_items(self.buffers@)
    }
}

impl<T> List<T> {
    /// The pages are well formed, the newest exists, and `count` is exact.
    pub closed spec fn wf(&self) -> bool {
        &&& self.buffers@.len() > 0
        &&& self.buffer_cap > 0
        &&& forall|i: int| 0 <= i < self.buffers@.len() ==> (#[trigger] self.buffers@[i]).wf()
        &&& self.count == chain_items(self.buffers@).len()
    }

    /// The slots per page of pages this list makes.
    pub closed spec fn buffer_capacity(&self) -> nat {
        self.buffer_cap as nat
    }

    /// The order in which `drop_out_all` hands the items out: newest page first,
    /// each page oldest slot first.
    pub closed spec fn drain_order(&self) -> Seq<(usize, T)> {
        drain_items(self.buffers@)
    }

    /// A bulk drain hands out exactly the items the list holds, each as often
    /// as it is held: no item is lost and none is made up.
    pub proof fn lemma_drain_order_same_items(&self)
        requires
            self.wf(),
        ensures
            self.drain_order().to_multiset() == self@.to_multiset(),
            self.drain_order().len() == self@.len(),
    {
        lemma_drain_same_items(self.buffers@);
    }

    /// An empty list whose pages hold `buffer_cap` slots each.
    pub fn new(buffer_cap: usize) -> (r: Self)
        requires
            buffer_cap > 0,
        ensures
            r.wf(),
            r@ == Seq::<(usize, T)>::empty(),
            r.buffer_capacity() == buffer_cap,
    {
        let first = Buffer::new(buffer_cap);
        let mut buffers: Vec<Buffer<T>> = Vec::new();
        buffers.push(first);
        assert(buffers@.drop_last() =~= Seq::<Buffer<T>>::empty());
        assert(chain_items(buffers@.drop_last()) =~= Seq::<(usize, T)>::empty());
        assert(chain_items(buffers@) =~= Seq::<(usize, T)>::empty());
        List { buffers, count: 0, buffer_cap }
    }

    /// Puts `(tag, payload)` on top. When the newest page is full, a fresh page
    /// of `buffer_capacity()` slots is linked in front of it first.
    pub fn push(&mut self, tag: usize, payload: T)
        requires
            old(self).wf(),
            is_tag(tag),
            old(self)@.len() < usize::MAX,
        ensures
            final(self).wf(),
            final(self).buffer_capacity() == old(self).buffer_capacity(),
            final(self)@ == old(self)@.push((tag, payload)),
    {
        let mut cur = self.buffers.pop().unwrap();
        proof {
            lemma_chain_push(self.buffers@, cur);
        }
        if cur.is_full() {
            self.buffers.push(cur);
            cur = Buffer::new(self.buffer_cap);
            proof {
                lemma_chain_push(self.buffers@, cur);
                assert(chain_items(old(self).buffers@) + cur.items() =~= chain_items(old(self).buffers@));
            }
        }
        let ghost below = self.buffers@;
        let ghost before = cur.items();
        cur.put(tag, payload);
        self.buffers.push(cur);
        proof {
            lemma_chain_push(below, cur);
            assert(chain_items(below) + before.push((tag, payload)) =~= (chain_items(below) + before).push((tag, payload)));
            assert forall|i: int| 0 <= i < self.buffers@.len() implies (#[trigger] self.buffers@[i]).wf() by {
                if i < below.len() {
                    assert(self.buffers@[i] == below[i]);
                }
            }
        }
        self.count = self.count + 1;
    }

    /// `push` for a caller that holds the only handle on the list.
    pub fn exclusive_push(&mut self, tag: usize, payload: T)
        requires
            old(self).wf(),
            is_tag(tag),
            old(self)@.len() < usize::MAX,
        ensures
            final(self).wf(),
            final(self).buffer_capacity() == old(self).buffer_capacity(),
            final(self)@ == old(self)@.push((tag, payload)),
    {
        self.push(tag, payload)
    }

    /// Takes the top item off, or gives `None` when the list is empty. Exhausted
    /// pages in front of the chain are retired on the way, and slots that carry no
    /// payload are skipped.
    pub fn pop(&mut self) -> (r: Option<(usize, T)>)
        requires
            old(self).wf(),
        ensures
            final(self).wf(),
            final(self).buffer_capacity() == old(self).buffer_capacity(),
            old(self)@.len() == 0 ==> r == None::<(usize, T)> && final(self)@ == old(self)@,
            old(self)@.len() > 0 ==> r == Some(old(self)@.last()) && final(self)@ == old(self)@.drop_last(),
    {
        if self.count == 0 {
            return None;
        }
        loop
            invariant
                self.wf(),
                self@ == old(self)@,
                self@.len() > 0,
                self.buffer_cap == old(self).buffer_cap,
            decreases chain_slots(self.buffers@),
        {
            let ghost whole = self.buffers@;
            let mut cur = self.buffers.pop().unwrap();
            let ghost rest = self.buffers@;
            proof {
                assert(whole == rest.push(cur));
                lemma_chain_push(rest, cur);
                assert(cur == whole[whole.len() - 1]);
            }
            if cur.cursor == 0 {
                proof {
                    assert(cur.items() =~= Seq::<(usize, T)>::empty());
                    assert(chain_items(rest) + cur.items() =~= chain_items(rest));
                }
                if self.buffers.len() == 0 {
                    proof {
                        assert(chain_items(rest) =~= Seq::<(usize, T)>::empty());
                    }
                    self.buffers.push(cur);
                    return None;
                }
                proof {
                    assert forall|i: int| 0 <= i < self.buffers@.len() implies (#[trigger] self.buffers@[i]).wf() by {
                        assert(self.buffers@[i] == whole[i]);
                    }
                }
            } else {
                let ghost full = cur.items();
                let item = cur.take_top();
                self.buffers.push(cur);
                proof {
                    lemma_chain_push(rest, cur);
                    assert forall|i: int| 0 <= i < self.buffers@.len() implies (#[trigger] self.buffers@[i]).wf() by {
                        if i < rest.len() {
                            assert(self.buffers@[i] == whole[i]);
                        }
                    }
                }
                if item.0 != SENTINEL_SLOT {
                    proof {
                        assert(full == cur.items().push(item));
                        let a = chain_items(rest);
                        assert(a + cur.items().push(item) =~= (a + cur.items()).push(item));
                        assert((a + cur.items()).push(item).drop_last() =~= a + cur.items());
                    }
                    self.count = self.count - 1;
                    return Some(item);
                }
            }
        }
    }

    /// Detaches every item at once, leaving one fresh empty page. Gives `None`
    /// when the list was empty, else the items in `drain_order()`.
    pub fn drop_out_all(&mut self) -> (r: Option<Vec<(usize, T)>>)
        requires
            old(self).wf(),
        ensures
            final(self).wf(),
            final(self).buffer_capacity() == old(self).buffer_capacity(),
            final(self)@.len() == 0,
            old(self)@.len() == 0 ==> r.is_none() && final(self)@ == old(self)@,
            old(self)@.len() > 0 ==> r.is_some() && r.unwrap()@ == old(self).drain_order(),
    {
        if self.count == 0 {
            return None;
        }
        let mut chain: Vec<Buffer<T>> = Vec::new();
        chain.append(&mut self.buffers);
        let fresh = Buffer::new(self.buffer_cap);
        self.buffers.push(fresh);
        proof {
            lemma_chain_push(Seq::<Buffer<T>>::empty(), fresh);
            assert(self.buffers@ =~= Seq::<Buffer<T>>::empty().push(fresh));
            assert(chain_items(Seq::<Buffer<T>>::empty()) =~= Seq::<(usize, T)>::empty());
        }
        let ghost whole = chain@;
        let mut res: Vec<(usize, T)> = Vec::new();
        while chain.len() > 0
            invariant
                chain@ == whole.take(chain@.len() as int),
                chain@.len() <= whole.len(),
                forall|i: int| 0 <= i < whole.len() ==> (#[trigger] whole[i]).wf(),
                res@ + drain_items(chain@) == drain_items(whole),
            decreases chain@.len(),
        {
            let ghost before = chain@;
            let mut b = chain.pop().unwrap();
            proof {
                assert(before =~= chain@.push(b));
                lemma_chain_push(chain@, b);
                assert(b == whole[before.len() - 1]);
            }
            let ghost res_before = res@;
            b.flush_into(&mut res);
            proof {
                assert(res_before + drain_items(before) =~= res@ + drain_items(chain@));
                assert(chain@ =~= whole.take(chain@.len() as int));
            }
        }
        proof {
            assert(whole.take(0) =~= Seq::<Buffer<T>>::empty());
            assert(res@ =~= drain_items(whole));
            lemma_drain_same_items(whole);
        }
        self.count = self.count - res.len();
        Some(res)
    }

    /// Moves every item of `other` on top of this list's items, leaving `other`
    /// empty: `other`'s whole chain goes in front of this list's chain.
    pub fn prepend_with(&mut self, other: &mut Self)
        requires
            old(self).wf(),
            old(other).wf(),
            old(self)@.len() + old(other)@.len() <= usize::MAX,
        ensures
            final(self).wf(),
            final(other).wf(),
            final(self).buffer_capacity() == old(self).buffer_capacity(),
            final(other).buffer_capacity() == old(other).buffer_capacity(),
            final(self)@ == old(self)@ + old(other)@,
            final(self)@.len() == old(self)@.len() + old(other)@.len(),
            final(other)@.len() == 0,
    {
        if other.count == 0 {
            assert(self@ + other@ =~= self@);
            return;
        }
        let mut moved: Vec<Buffer<T>> = Vec::new();
        moved.append(&mut other.buffers);
        let fresh = Buffer::new(other.buffer_cap);
        other.buffers.push(fresh);
        proof {
            lemma_chain_push(Seq::<Buffer<T>>::empty(), fresh);
            assert(other.buffers@ =~= Seq::<Buffer<T>>::empty().push(fresh));
            assert(chain_items(Seq::<Buffer<T>>::empty()) =~= Seq::<(usize, T)>::empty());
        }
        let moved_count = other.count;
        other.count = 0;
        let ghost mine = self.buffers@;
        let ghost theirs = moved@;
        self.buffers.append(&mut moved);
        proof {
            lemma_chain_items_add(mine, theirs);
            assert forall|i: int| 0 <= i < self.buffers@.len() implies (#[trigger] self.buffers@[i]).wf() by {
                if i < mine.len() {
                    assert(self.buffers@[i] == mine[i]);
                } else {
                    assert(self.buffers@[i] == theirs[i - mine.len()]);
                }
            }
        }
        self.count = self.count + moved_count;
    }

    /// The number of items held.
    pub fn count(&self) -> (r: usize)
        requires
            self.wf(),
        ensures
            r == self@.len(),
    {
        self.count
    }
}

} // verus!
