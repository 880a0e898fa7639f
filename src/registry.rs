use vstd::multiset::Multiset;
use vstd::prelude::*;

verus! {

/// Counts, within one run, how often each source path has been placed.
pub struct SeenRegistry {
    keys: Vec<String>,
    counts: Vec<u64>,
    history: Ghost<Seq<Seq<char>>>,
}

impl View for SeenRegistry {
    /// Every path registered so far, in order.
    type V = Seq<Seq<char>>;

    closed spec fn view(&self) -> Seq<Seq<char>> {
        self.history@
    }
}

/// How often `key` occurs in `history`.
pub open spec fn times_seen(history: Seq<Seq<char>>, key: Seq<char>) -> nat {
    history.to_multiset().count(key)
}

impl SeenRegistry {
    pub closed spec fn wf(&self) -> bool {
        &&& self.keys@.len() == self.counts@.len()
        &&& forall|i: int|
            0 <= i < self.keys@.len() ==> #[trigger] self.counts@[i] == times_seen(
                self.history@,
                self.keys@[i]@,
            ) && self.counts@[i] <= self.history@.len()
        &&& forall|i: int, j: int|
            0 <= i < j < self.keys@.len() ==> self.keys@[i]@ != self.keys@[j]@
        &&& forall|k: Seq<char>|
            #[trigger] times_seen(self.history@, k) > 0 ==> exists|i: int|
                0 <= i < self.keys@.len() && self.keys@[i]@ == k
    }

    pub fn new() -> (r: SeenRegistry)
        ensures
            r.wf(),
            r@ == Seq::<Seq<char>>::empty(),
    {
        let r = SeenRegistry { keys: Vec::new(), counts: Vec::new(), history: Ghost(Seq::empty()) };
        proof {
            r.history@.to_multiset_ensures();
            assert forall|k: Seq<char>| #[trigger] times_seen(r.history@, k) == 0 by {
                assert(!r.history@.contains(k));
            }
        }
        r
    }

    /// Records one more placement of `key` and returns how often it had been
    /// placed before.
    pub fn register(&mut self, key: &String) -> (prev: u64)
        requires
            old(self).wf(),
            old(self)@.len() < u64::MAX,
        ensures
            final(self).wf(),
            final(self)@ == old(self)@.push(key@),
            prev == times_seen(old(self)@, key@),
    {
        let ghost old_hist = self.history@;
        let ghost new_hist = old_hist.push(key@);
        proof {
            old_hist.to_multiset_ensures();
            assert(new_hist.to_multiset() =~= old_hist.to_multiset().insert(key@));
        }
        let mut i: usize = 0;
        while i < self.keys.len()
            invariant
                self.wf(),
                self.history@ == old_hist,
                old_hist.len() < u64::MAX,
                old(self)@ == old_hist,
                new_hist == old_hist.push(key@),
                new_hist.to_multiset() == old_hist.to_multiset().insert(key@),
                0 <= i <= self.keys@.len(),
                forall|j: int| 0 <= j < i ==> self.keys@[j]@ != key@,
            decreases self.keys@.len() - i,
        {
            if self.keys[i] == *key {
                let prev = self.counts[i];
                assert(prev <= old_hist.len());
                let ghost old_self = *self;
                self.counts.set(i, prev + 1);
                self.history = Ghost(new_hist);
                proof {
                    assert forall|j: int| 0 <= j < self.keys@.len() implies #[trigger] self.counts@[j]
                        == times_seen(self.history@, self.keys@[j]@) && self.counts@[j]
                        <= self.history@.len() by {
                        if j != i {
                            assert(old_self.counts@[j] == times_seen(old_hist, self.keys@[j]@));
                        }
                    }
                    assert forall|k: Seq<char>| #[trigger]
                        times_seen(self.history@, k) > 0 implies exists|j: int|
                        0 <= j < self.keys@.len() && self.keys@[j]@ == k by {
                        if k != key@ {
                            assert(times_seen(old_hist, k) > 0);
                        }
                    }
                }
                return prev;
            }
            i += 1;
        }
        proof {
            if times_seen(old_hist, key@) > 0 {
                let j = choose|j: int| 0 <= j < self.keys@.len() && self.keys@[j]@ == key@;
                assert(self.keys@[j]@ == key@);
            }
        }
        let ghost old_self = *self;
        self.keys.push(key.clone());
        self.counts.push(1);
        self.history = Ghost(new_hist);
        proof {
            let n = old_self.keys@.len() as int;
            assert forall|j: int| 0 <= j < self.keys@.len() implies #[trigger] self.counts@[j]
                == times_seen(self.history@, self.keys@[j]@) && self.counts@[j]
                <= self.history@.len() by {
                if j != n {
                    assert(old_self.counts@[j] == times_seen(old_hist, old_self.keys@[j]@));
                    assert(self.keys@[j] == old_self.keys@[j]);
                }
            }
            assert forall|k: Seq<char>| #[trigger]
                times_seen(self.history@, k) > 0 implies exists|j: int|
                0 <= j < self.keys@.len() && self.keys@[j]@ == k by {
                if k != key@ {
                    assert(times_seen(old_hist, k) > 0);
                    let j = choose|j: int| 0 <= j < old_self.keys@.len() && old_self.keys@[j]@ == k;
                    assert(self.keys@[j] == old_self.keys@[j]);
                } else {
                    assert(self.keys@[n]@ == k);
                }
            }
        }
        0
    }
}

} // verus!
