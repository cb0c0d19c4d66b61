//! Laws that hold across several calls of the stacks' operations.
use vstd::prelude::*;

verus! {

/// A stack view after `i` pops: the last `i` items gone.
pub open spec fn popped<A>(s: Seq<A>, i: nat) -> Seq<A>
    decreases i,
{
    if i == 0 {
        s
    } else {
        popped(s, (i - 1) as nat).drop_last()
    }
}

/// Pops come back in reverse push order: after pushing `pushed` on a stack
/// that holds `below` and popping `i` times, the stack holds `below` and all
/// but the last `i` pushed items, and the next pop yields the item pushed
/// `i + 1`-th from the end.
pub proof fn lemma_pops_reverse_pushes<A>(below: Seq<A>, pushed: Seq<A>, i: nat)
    requires
        i < pushed.len(),
    ensures
        popped(below + pushed, i) == below + pushed.take(pushed.len() - i),
        popped(below + pushed, i).last() == pushed[pushed.len() - 1 - i],
    decreases i,
{
    if i == 0 {
        assert(pushed.take(pushed.len() as int) =~= pushed);
    } else {
        lemma_pops_reverse_pushes(below, pushed, (i - 1) as nat);
        assert((below + pushed.take(pushed.len() - (i - 1))).drop_last()
            =~= below + pushed.take(pushed.len() - i));
    }
    let k = pushed.len() - i;
    assert((below + pushed.take(k)).last() == pushed.take(k)[k - 1]);
}

} // verus!
