//! A FIFO work queue with cancellation and shutdown, shared by the
//! fetch and decode workers of the HTTP tile source. Blocking and
//! locking belong to the caller: `pop` says whether to take an item,
//! stop, or wait for a push.
use std::collections::VecDeque;
use vstd::prelude::*;

verus! {

/// What a worker should do after asking the queue for work.
#[derive(Debug)]
pub enum PopOutcome<T> {
    /// Process this item.
    Item(T),
    /// The queue is empty and shut down: exit.
    ShutDown,
    /// The queue is empty but open: wait for a push or a shutdown.
    Wait,
}

/// The items of `s` whose flag in `keep` is set, in order.
pub open spec fn select<T>(s: Seq<T>, keep: Seq<bool>) -> Seq<T>
    recommends
        s.len() == keep.len(),
    decreases s.len(),
{
    if s.len() == 0 || keep.len() == 0 {
        Seq::empty()
    } else if keep.last() {
        select(s.drop_last(), keep.drop_last()).push(s.last())
    } else {
        select(s.drop_last(), keep.drop_last())
    }
}

/// Shared queue with cancellation support.
pub struct WorkQueue<T> {
    items: VecDeque<T>,
    shutdown: bool,
}

impl<T> WorkQueue<T> {
    /// The queued items, front first.
    pub closed spec fn items(&self) -> Seq<T> {
        self.items@
    }

    /// Whether the queue has been shut down.
    pub closed spec fn is_shut_down(&self) -> bool {
        self.shutdown
    }

    /// An empty, open queue.
    pub fn new() -> (q: Self)
        ensures
            q.items() == Seq::<T>::empty(),
            !q.is_shut_down(),
    {
        WorkQueue { items: VecDeque::new(), shutdown: false }
    }

    /// Append an item at the back.
    pub fn push(&mut self, t: T)
        ensures
            final(self).items() == old(self).items().push(t),
            final(self).is_shut_down() == old(self).is_shut_down(),
    {
        self.items.push_back(t);
    }

    /// Take the front item if there is one; otherwise say whether the
    /// worker should stop (shut down) or wait.
    pub fn pop(&mut self) -> (r: PopOutcome<T>)
        ensures
            final(self).is_shut_down() == old(self).is_shut_down(),
            old(self).items().len() > 0 ==> r == PopOutcome::Item(old(self).items()[0])
                && final(self).items() == old(self).items().drop_first(),
            old(self).items().len() == 0 ==> final(self).items() == old(self).items() && r == (
            if old(self).is_shut_down() {
                PopOutcome::<T>::ShutDown
            } else {
                PopOutcome::<T>::Wait
            }),
    {
        match self.items.pop_front() {
            Some(t) => PopOutcome::Item(t),
            None => {
                if self.shutdown {
                    PopOutcome::ShutDown
                } else {
                    PopOutcome::Wait
                }
            },
        }
    }

    /// Drop every queued item for which `keep` returns false, keeping
    /// the order of the rest. Returns the number dropped.
    pub fn retain<F: Fn(&T) -> bool>(&mut self, keep: F) -> (dropped: usize)
        requires
            forall|t: &T| #[trigger] keep.requires((t,)),
        ensures
            final(self).is_shut_down() == old(self).is_shut_down(),
            exists|kept: Seq<bool>|
                {
                    &&& kept.len() == old(self).items().len()
                    &&& forall|i: int|
                        0 <= i < kept.len() ==> #[trigger] keep.ensures(
                            (&old(self).items()[i],),
                            kept[i],
                        )
                    &&& final(self).items() == select(old(self).items(), kept)
                },
            dropped == old(self).items().len() - final(self).items().len(),
    {
        let ghost orig = self.items@;
        let n = self.items.len();
        let ghost mut kept: Seq<bool> = Seq::empty();
        let mut i: usize = 0;
        while i < n
            invariant
                n == orig.len(),
                i <= n,
                kept.len() == i,
                forall|t: &T| #[trigger] keep.requires((t,)),
                forall|j: int| 0 <= j < i ==> #[trigger] keep.ensures((&orig[j],), kept[j]),
                self.items@ == orig.skip(i as int) + select(orig.take(i as int), kept),
                self.shutdown == old(self).shutdown,
            decreases n - i,
        {
            assert(self.items@.len() > 0) by {
                assert(orig.skip(i as int).len() > 0);
            }
            let ghost before = self.items@;
            let t = self.items.pop_front().unwrap();
            assert(t == orig[i as int]) by {
                assert(before[0] == orig.skip(i as int)[0]);
            }
            let b = keep(&t);
            let ghost prev_kept = kept;
            proof {
                kept = kept.push(b);
            }
            assert(kept.drop_last() =~= prev_kept);
            assert(orig.take(i + 1).drop_last() =~= orig.take(i as int));
            if b {
                self.items.push_back(t);
            }
            i = i + 1;
            assert(self.items@ =~= orig.skip(i as int) + select(orig.take(i as int), kept));
        }
        assert(orig.skip(n as int) =~= Seq::<T>::empty());
        assert(orig.take(n as int) =~= orig);
        assert(self.items@ =~= select(orig, kept));
        proof {
            lemma_select_len(orig, kept);
        }
        n - self.items.len()
    }

    /// Mark the queue shut down; workers finding it empty then stop.
    pub fn shutdown(&mut self)
        ensures
            final(self).is_shut_down(),
            final(self).items() == old(self).items(),
    {
        self.shutdown = true;
    }

    /// Number of queued items.
    pub fn len(&self) -> (n: usize)
        ensures
            n == self.items().len(),
    {
        self.items.len()
    }
}

/// Selecting never yields more items than it is given.
pub proof fn lemma_select_len<T>(s: Seq<T>, keep: Seq<bool>)
    requires
        s.len() == keep.len(),
    ensures
        select(s, keep).len() <= s.len(),
    decreases s.len(),
{
    if s.len() > 0 {
        lemma_select_len(s.drop_last(), keep.drop_last());
    }
}

} // verus!
