//! A queue that keeps only the items of the most recent time window. The
//! clock stays at the edge: callers pass the current time (monotonic
//! milliseconds) into `push`, `extend` and `retain`.

use vstd::prelude::*;

verus! {

broadcast use vstd::std_specs::vec::group_vec_axioms;

/// Whether an item stamped `ts` has aged out of a `dur`-wide window at
/// time `now`.
pub open spec fn expired(ts: u64, dur: u64, now: u64) -> bool {
    ts + dur < now
}

/// The queue with its expired leading items dropped.
pub open spec fn drop_expired<T>(s: Seq<(u64, T)>, dur: u64, now: u64) -> Seq<(u64, T)>
    decreases s.len(),
{
    if s.len() > 0 && expired(s[0].0, dur, now) {
        drop_expired(s.skip(1), dur, now)
    } else {
        s
    }
}

/// Items of the last `duration` milliseconds, oldest first.
#[derive(Debug)]
pub struct TimeQueue<T> {
    pub duration: u64,
    pub data: Vec<(u64, T)>,
}

impl<T> TimeQueue<T> {
    pub fn new(duration: u64) -> (r: Self)
        ensures
            r.duration == duration,
            r.data@ == Seq::<(u64, T)>::empty(),
    {
        TimeQueue { duration, data: Vec::new() }
    }

    /// Append one item stamped with the current time.
    pub fn push(&mut self, now: u64, item: T)
        ensures
            final(self).duration == old(self).duration,
            final(self).data@ == old(self).data@.push((now, item)),
    {
        self.data.push((now, item));
    }

    /// Append a batch of items, all stamped with the current time.
    pub fn extend(&mut self, now: u64, items: Vec<T>)
        ensures
            final(self).duration == old(self).duration,
            final(self).data@.len() == old(self).data@.len() + items@.len(),
            final(self).data@.take(old(self).data@.len() as int) == old(self).data@,
            forall|i: int|
                0 <= i < items@.len() ==> final(self).data@[old(self).data@.len() + i] == (
                now,
                #[trigger] items@[i],
            ),
    {
        let ghost orig = self.data@;
        let mut items = items;
        let ghost its = items@;
        let n = items.len();
        let mut i: usize = 0;
        while i < n
            invariant
                i <= n,
                n == its.len(),
                items@ == its.skip(i as int),
                self.duration == old(self).duration,
                self.data@.len() == orig.len() + i,
                self.data@.take(orig.len() as int) == orig,
                forall|k: int| 0 <= k < i ==> self.data@[orig.len() + k] == (now, #[trigger] its[k]),
            decreases n - i,
        {
            proof {
                assert(items@[0] == its[i as int]);
                assert(items@.skip(1) =~= its.skip(i + 1));
            }
            let item = items.remove(0);
            self.data.push((now, item));
            proof {
                assert(self.data@.take(orig.len() as int) =~= orig);
            }
            i = i + 1;
        }
    }

    /// The oldest retained item.
    pub fn first(&self) -> (r: Option<&T>)
        ensures
            (match r {
                Some(x) => self.data@.len() > 0 && *x == self.data@[0].1,
                None => self.data@.len() == 0,
            }),
    {
        if self.data.len() == 0 {
            None
        } else {
            Some(&self.data[0].1)
        }
    }

    /// The newest item.
    pub fn last(&self) -> (r: Option<&T>)
        ensures
            (match r {
                Some(x) => self.data@.len() > 0 && *x == self.data@[self.data@.len() - 1].1,
                None => self.data@.len() == 0,
            }),
    {
        if self.data.len() == 0 {
            None
        } else {
            Some(&self.data[self.data.len() - 1].1)
        }
    }

    /// All retained items, oldest first.
    pub fn get_data(&self) -> (r: Vec<&T>)
        ensures
            r@.len() == self.data@.len(),
            forall|i: int| 0 <= i < r@.len() ==> *(#[trigger] r@[i]) == self.data@[i].1,
    {
        let mut out: Vec<&T> = Vec::new();
        let n = self.data.len();
        let mut i: usize = 0;
        while i < n
            invariant
                i <= n,
                n == self.data@.len(),
                out@.len() == i,
                forall|k: int| 0 <= k < i ==> *(#[trigger] out@[k]) == self.data@[k].1,
            decreases n - i,
        {
            out.push(&self.data[i].1);
            i = i + 1;
        }
        out
    }

    /// Drop the leading items that have aged out of the window as of `now`.
    pub fn retain(&mut self, now: u64)
        ensures
            final(self).duration == old(self).duration,
            final(self).data@ == drop_expired(old(self).data@, old(self).duration, now),
    {
        loop
            invariant
                self.duration == old(self).duration,
                drop_expired(self.data@, self.duration, now) == drop_expired(
                    old(self).data@,
                    old(self).duration,
                    now,
                ),
            decreases self.data@.len(),
        {
            if self.data.len() == 0 {
                proof {
                    assert(drop_expired(self.data@, self.duration, now) == self.data@);
                }
                return ;
            }
            let ts = self.data[0].0;
            let aged = (ts as u128) + (self.duration as u128) < (now as u128);
            proof {
                assert(aged == expired(self.data@[0].0, self.duration, now));
            }
            if !aged {
                proof {
                    assert(drop_expired(self.data@, self.duration, now) == self.data@);
                }
                return ;
            }
            let ghost pre = self.data@;
            let _dropped = self.data.remove(0);
            proof {
                assert(pre.skip(1) =~= self.data@);
            }
        }
    }

    pub fn len(&self) -> (r: usize)
        ensures
            r == self.data@.len(),
    {
        self.data.len()
    }

    pub fn is_empty(&self) -> (r: bool)
        ensures
            r == (self.data@.len() == 0),
    {
        self.data.len() == 0
    }
}

} // verus!
