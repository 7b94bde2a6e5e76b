//! Keyed counting semaphores with FIFO waiter queues, as kept in a
//! process's shared data. The table itself never blocks: a `wait` that
//! cannot proceed reports which process must block, a `signal` that finds a
//! waiter reports which process to wake, and the process manager performs
//! the actual transition.

use crate::pid::ProcessId;
use std::collections::VecDeque;
use vstd::prelude::*;

verus! {

/// What a semaphore operation asks the process manager to do.
#[derive(Clone, Copy, Debug, PartialEq, Eq, Structural)]
pub enum SemaphoreResult {
    /// The operation completed without scheduling consequences.
    Done,
    /// No semaphore with the given key exists.
    NotExist,
    /// The calling process must block.
    Block(ProcessId),
    /// The named process must be woken; the signal's token was handed to it
    /// directly, so the count stays untouched.
    WakeUp(ProcessId),
}

/// One counting semaphore: a count of free tokens and the processes blocked
/// on it, in the order they blocked.
pub struct Semaphore {
    /// Free tokens.
    pub count: usize,
    /// Blocked processes, front first.
    pub waiters: VecDeque<ProcessId>,
}

/// The result of one wait step on the mathematical model of a semaphore:
/// the new count, the new waiter queue, and whether the caller blocked.
pub open spec fn sem_wait_step(count: nat, waiters: Seq<ProcessId>, pid: ProcessId) -> (
    nat,
    Seq<ProcessId>,
    bool,
) {
    if count > 0 {
        ((count - 1) as nat, waiters, false)
    } else {
        (count, waiters.push(pid), true)
    }
}

/// The result of one signal step on the mathematical model of a semaphore:
/// the new count, the new waiter queue, and the woken process, if any.
pub open spec fn sem_signal_step(count: nat, waiters: Seq<ProcessId>) -> (
    nat,
    Seq<ProcessId>,
    Option<ProcessId>,
) {
    if waiters.len() > 0 {
        (count, waiters.drop_first(), Option::Some(waiters[0]))
    } else {
        (count + 1, waiters, Option::None)
    }
}

impl Semaphore {
    /// The semaphore invariant: free tokens and blocked waiters never
    /// coexist — a waiter would have taken a token at once.
    pub open spec fn wf(&self) -> bool {
        self.count > 0 ==> self.waiters@.len() == 0
    }
}

/// A process's semaphore table: keyed by caller-chosen numbers, each key at
/// most once.
pub struct SemaphoreSet {
    /// The table entries, keys unique.
    pub sems: Vec<(u32, Semaphore)>,
}

impl SemaphoreSet {
    /// Well-formedness: keys are unique and every semaphore obeys the
    /// semaphore invariant.
    pub open spec fn wf(&self) -> bool {
        &&& forall|i: int, j: int|
            0 <= i < j < self.sems@.len() ==> (#[trigger] self.sems@[i]).0 != (
            #[trigger] self.sems@[j]).0
        &&& forall|i: int| 0 <= i < self.sems@.len() ==> (#[trigger] self.sems@[i]).1.wf()
    }

    /// Whether the table holds a semaphore under `key`.
    pub open spec fn has_key(&self, key: u32) -> bool {
        exists|i: int| 0 <= i < self.sems@.len() && (#[trigger] self.sems@[i]).0 == key
    }

    /// The index of `key`'s entry; meaningful only when `has_key`.
    pub open spec fn key_index(&self, key: u32) -> int {
        choose|i: int| 0 <= i < self.sems@.len() && (#[trigger] self.sems@[i]).0 == key
    }

    /// The count of `key`'s semaphore; meaningful only when `has_key`.
    pub open spec fn count_of(&self, key: u32) -> nat {
        self.sems@[self.key_index(key)].1.count as nat
    }

    /// The waiter queue of `key`'s semaphore; meaningful only when
    /// `has_key`.
    pub open spec fn waiters_of(&self, key: u32) -> Seq<ProcessId> {
        self.sems@[self.key_index(key)].1.waiters@
    }

    /// An empty table.
    pub fn new() -> (r: SemaphoreSet)
        ensures
            r.wf(),
            r.sems@.len() == 0,
    {
        SemaphoreSet { sems: Vec::new() }
    }

    /// The index of `key`'s entry, if any.
    fn find(&self, key: u32) -> (r: Option<usize>)
        requires
            self.wf(),
        ensures
            match r {
                Option::Some(i) => self.has_key(key) && i == self.key_index(key) && i
                    < self.sems@.len() && self.sems@[i as int].0 == key,
                Option::None => !self.has_key(key),
            },
    {
        let mut i: usize = 0;
        while i < self.sems.len()
            invariant
                self.wf(),
                i <= self.sems@.len(),
                forall|j: int| 0 <= j < i ==> (#[trigger] self.sems@[j]).0 != key,
            decreases self.sems@.len() - i,
        {
            if self.sems[i].0 == key {
                proof {
                    let c = self.key_index(key);
                    assert(0 <= c < self.sems@.len() && self.sems@[c].0 == key);
                    if c != i as int {
                        assert(false);
                    }
                }
                return Some(i);
            }
            i = i + 1;
        }
        None
    }

    /// Create a semaphore under `key` with `value` free tokens. Fails, and
    /// changes nothing, when the key is already taken.
    pub fn insert(&mut self, key: u32, value: usize) -> (r: bool)
        requires
            old(self).wf(),
        ensures
            final(self).wf(),
            r == !old(self).has_key(key),
            !r ==> *final(self) == *old(self),
            r ==> {
                &&& final(self).has_key(key)
                &&& final(self).count_of(key) == value
                &&& final(self).waiters_of(key) == Seq::<ProcessId>::empty()
                &&& final(self).sems@.len() == old(self).sems@.len() + 1
                &&& forall|k: u32|
                    #[trigger] final(self).has_key(k) == (old(self).has_key(k) || k == key)
                &&& forall|k: u32|
                    (#[trigger] old(self).has_key(k)) ==> final(self).count_of(k) == old(self).count_of(k) && final(self).waiters_of(k) == old(self).waiters_of(k)
            },
    {
        match self.find(key) {
            Some(_) => false,
            None => {
                self.sems.push((key, Semaphore { count: value, waiters: VecDeque::new() }));
                proof {
                    let olds = old(self).sems@;
                    let news = self.sems@;
                    assert forall|k: u32| #[trigger] old(self).has_key(k) implies self.has_key(k)
                        && self.count_of(k) == old(self).count_of(k) && self.waiters_of(k) == old(
                        self,
                    ).waiters_of(k) by {
                        let i = old(self).key_index(k);
                        assert(olds[i].0 == k);
                        assert(news[i].0 == k);
                        let j = self.key_index(k);
                        if j != i {
                            assert(false);
                        }
                    }
                    assert(news[olds.len() as int].0 == key);
                    assert(self.has_key(key));
                    assert(self.key_index(key) == olds.len()) by {
                        let j = self.key_index(key);
                        if j != olds.len() as int {
                            assert(olds[j].0 == key);
                            assert(false);
                        }
                    }
                    assert forall|k: u32| self.has_key(k) implies old(self).has_key(k) || k
                        == key by {
                        let j = self.key_index(k);
                        if j < olds.len() {
                            assert(olds[j].0 == k);
                        }
                    }
                    assert(self.waiters_of(key) =~= Seq::<ProcessId>::empty());
                }
                true
            },
        }
    }

    /// Drop the semaphore under `key`. Fails when no such key exists.
    /// Removal does not consult the waiter queue: dropping a semaphore that
    /// still has blocked waiters orphans them, and is the caller's error.
    pub fn remove(&mut self, key: u32) -> (r: bool)
        requires
            old(self).wf(),
        ensures
            final(self).wf(),
            r == old(self).has_key(key),
            !r ==> *final(self) == *old(self),
            r ==> {
                &&& !final(self).has_key(key)
                &&& final(self).sems@.len() == old(self).sems@.len() - 1
                &&& forall|k: u32|
                    #[trigger] final(self).has_key(k) == (old(self).has_key(k) && k != key)
                &&& forall|k: u32|
                    (#[trigger] old(self).has_key(k)) && k != key ==> final(self).count_of(k) == old(self).count_of(k) && final(self).waiters_of(k) == old(self).waiters_of(k)
            },
    {
        match self.find(key) {
            None => false,
            Some(i) => {
                self.sems.remove(i);
                proof {
                    let olds = old(self).sems@;
                    let news = self.sems@;
                    let idx = i as int;
                    assert forall|k: u32| #[trigger] old(self).has_key(k) && k != key implies self.has_key(k) && self.count_of(k) == old(self).count_of(k) && self.waiters_of(k) == old(self).waiters_of(k) by {
                        let oi = old(self).key_index(k);
                        assert(olds[oi].0 == k);
                        assert(oi != idx);
                        let ni = if oi < idx {
                            oi
                        } else {
                            oi - 1
                        };
                        assert(news[ni].0 == k);
                        assert(self.has_key(k));
                        let j = self.key_index(k);
                        if j != ni {
                            assert(false);
                        }
                    }
                    assert forall|k: u32| self.has_key(k) implies old(self).has_key(k) && k
                        != key by {
                        let ni = self.key_index(k);
                        assert(news[ni].0 == k);
                        if ni < idx {
                            assert(olds[ni].0 == k);
                        } else {
                            assert(olds[ni + 1].0 == k);
                        }
                    }
                    assert(!self.has_key(key));
                }
                true
            },
        }
    }

    /// Take a token from `key`'s semaphore, or block the caller: when no
    /// token is free the caller is appended to the waiter queue and the
    /// result says to block it.
    pub fn wait(&mut self, key: u32, pid: ProcessId) -> (r: SemaphoreResult)
        requires
            old(self).wf(),
        ensures
            final(self).wf(),
            !old(self).has_key(key) ==> r == SemaphoreResult::NotExist && *final(self) == *old(self),
            old(self).has_key(key) ==> {
                let (c2, w2, blocked) = sem_wait_step(
                    old(self).count_of(key),
                    old(self).waiters_of(key),
                    pid,
                );
                &&& final(self).has_key(key)
                &&& final(self).count_of(key) == c2
                &&& final(self).waiters_of(key) == w2
                &&& r == (if blocked {
                    SemaphoreResult::Block(pid)
                } else {
                    SemaphoreResult::Done
                })
                &&& final(self).sems@.len() == old(self).sems@.len()
                &&& forall|k: u32|
                    #[trigger] final(self).has_key(k) == old(self).has_key(k)
                &&& forall|k: u32|
                    (#[trigger] old(self).has_key(k)) && k != key ==> final(self).count_of(k) == old(self).count_of(k) && final(self).waiters_of(k) == old(self).waiters_of(k)
            },
    {
        match self.find(key) {
            None => SemaphoreResult::NotExist,
            Some(i) => {
                let mut entry = self.sems.remove(i);
                let result = if entry.1.count > 0 {
                    entry.1.count = entry.1.count - 1;
                    SemaphoreResult::Done
                } else {
                    entry.1.waiters.push_back(pid);
                    SemaphoreResult::Block(pid)
                };
                self.sems.insert(i, entry);
                proof {
                    let olds = old(self).sems@;
                    assert(self.sems@.len() == olds.len());
                    assert(forall|j: int|
                        0 <= j < olds.len() && j != i as int ==> self.sems@[j] == olds[j]);
                    self.lemma_update_entry(*old(self), i as int, key);
                }
                result
            },
        }
    }

    /// Release a token on `key`'s semaphore. When processes wait, the
    /// longest-blocked one is handed the token directly — the count does not
    /// move — and the result says to wake it; otherwise the count grows by
    /// one.
    pub fn signal(&mut self, key: u32) -> (r: SemaphoreResult)
        requires
            old(self).wf(),
            old(self).has_key(key) ==> old(self).count_of(key) < usize::MAX,
        ensures
            final(self).wf(),
            !old(self).has_key(key) ==> r == SemaphoreResult::NotExist && *final(self) == *old(self),
            old(self).has_key(key) ==> {
                let (c2, w2, woken) = sem_signal_step(
                    old(self).count_of(key),
                    old(self).waiters_of(key),
                );
                &&& final(self).has_key(key)
                &&& final(self).count_of(key) == c2
                &&& final(self).waiters_of(key) == w2
                &&& r == (match woken {
                    Option::Some(w) => SemaphoreResult::WakeUp(w),
                    Option::None => SemaphoreResult::Done,
                })
                &&& final(self).sems@.len() == old(self).sems@.len()
                &&& forall|k: u32|
                    #[trigger] final(self).has_key(k) == old(self).has_key(k)
                &&& forall|k: u32|
                    (#[trigger] old(self).has_key(k)) && k != key ==> final(self).count_of(k) == old(self).count_of(k) && final(self).waiters_of(k) == old(self).waiters_of(k)
            },
    {
        match self.find(key) {
            None => SemaphoreResult::NotExist,
            Some(i) => {
                let mut entry = self.sems.remove(i);
                let result = match entry.1.waiters.pop_front() {
                    Some(w) => SemaphoreResult::WakeUp(w),
                    None => {
                        entry.1.count = entry.1.count + 1;
                        SemaphoreResult::Done
                    },
                };
                self.sems.insert(i, entry);
                proof {
                    let olds = old(self).sems@;
                    assert(self.sems@.len() == olds.len());
                    assert(forall|j: int|
                        0 <= j < olds.len() && j != i as int ==> self.sems@[j] == olds[j]);
                    self.lemma_update_entry(*old(self), i as int, key);
                }
                result
            },
        }
    }

    /// After removing entry `idx` (which held `key`) and re-inserting an
    /// entry with the same key at the same place, every key's entry is where
    /// it was, and lookups of other keys are untouched.
    proof fn lemma_update_entry(&self, prev: SemaphoreSet, idx: int, key: u32)
        requires
            prev.wf(),
            0 <= idx < prev.sems@.len(),
            prev.sems@[idx].0 == key,
            self.sems@.len() == prev.sems@.len(),
            self.sems@[idx].0 == key,
            forall|j: int| 0 <= j < prev.sems@.len() && j != idx ==> self.sems@[j] == prev.sems@[j],
        ensures
            forall|k: u32| #[trigger] self.has_key(k) == prev.has_key(k),
            self.has_key(key) && self.key_index(key) == idx,
            prev.key_index(key) == idx,
            forall|k: u32|
                prev.has_key(k) && k != key ==> #[trigger] self.count_of(k) == prev.count_of(k)
                    && #[trigger] self.waiters_of(k) == prev.waiters_of(k),
            forall|i: int, j: int|
                0 <= i < j < self.sems@.len() ==> (#[trigger] self.sems@[i]).0 != (
                #[trigger] self.sems@[j]).0,
    {
        assert(self.sems@[idx].0 == key);
        assert forall|k: u32| self.has_key(k) implies prev.has_key(k) by {
            let i = self.key_index(k);
            assert(prev.sems@[i].0 == self.sems@[i].0);
        }
        assert forall|k: u32| prev.has_key(k) implies self.has_key(k) by {
            let i = prev.key_index(k);
            assert(self.sems@[i].0 == prev.sems@[i].0);
        }
        assert(self.key_index(key) == idx) by {
            let j = self.key_index(key);
            assert(self.sems@[j].0 == key);
            if j != idx {
                assert(prev.sems@[j].0 == key);
                assert(false);
            }
        }
        assert(prev.key_index(key) == idx) by {
            let j = prev.key_index(key);
            if j != idx {
                assert(false);
            }
        }
        assert forall|k: u32| prev.has_key(k) && k != key implies #[trigger] self.count_of(k)
            == prev.count_of(k) && #[trigger] self.waiters_of(k) == prev.waiters_of(k) by {
            let i = prev.key_index(k);
            assert(prev.sems@[i].0 == k);
            assert(i != idx);
            assert(self.sems@[i].0 == k);
            let j = self.key_index(k);
            if j != i {
                assert(false);
            }
        }
    }
}


/// The state after a sequence of wait steps, one per element of `pids`, in
/// order.
pub open spec fn sem_waits(count: nat, waiters: Seq<ProcessId>, pids: Seq<ProcessId>) -> (
    nat,
    Seq<ProcessId>,
)
    decreases pids.len(),
{
    if pids.len() == 0 {
        (count, waiters)
    } else {
        let (c1, w1, b) = sem_wait_step(count, waiters, pids[0]);
        sem_waits(c1, w1, pids.drop_first())
    }
}

/// The state after `n` signal steps, together with the processes they woke,
/// in order.
pub open spec fn sem_signals(count: nat, waiters: Seq<ProcessId>, n: nat) -> (
    nat,
    Seq<ProcessId>,
    Seq<ProcessId>,
)
    decreases n,
{
    if n == 0 {
        (count, waiters, Seq::empty())
    } else {
        let (c1, w1, woken) = sem_signal_step(count, waiters);
        let (c2, w2, ws) = sem_signals(c1, w1, (n - 1) as nat);
        match woken {
            Option::Some(p) => (c2, w2, seq![p] + ws),
            Option::None => (c2, w2, ws),
        }
    }
}

/// A sequence of wait steps first drains the free tokens, then queues the
/// excess callers in the order they arrived.
pub proof fn lemma_sem_waits(count: nat, waiters: Seq<ProcessId>, pids: Seq<ProcessId>)
    requires
        count > 0 ==> waiters.len() == 0,
    ensures
        pids.len() <= count ==> sem_waits(count, waiters, pids) == (
            ((count - pids.len()) as nat),
            waiters,
        ),
        pids.len() > count ==> sem_waits(count, waiters, pids) == (
            0nat,
            waiters + pids.skip(count as int),
        ),
    decreases pids.len(),
{
    if pids.len() == 0 {
        assert(sem_waits(count, waiters, pids) == (count, waiters));
    } else if count > 0 {
        let (c1, w1, b) = sem_wait_step(count, waiters, pids[0]);
        lemma_sem_waits(c1, w1, pids.drop_first());
        if pids.len() > count {
            assert(pids.drop_first().skip((count - 1) as int) =~= pids.skip(count as int));
        }
    } else {
        let (c1, w1, b) = sem_wait_step(count, waiters, pids[0]);
        lemma_sem_waits(c1, w1, pids.drop_first());
        assert(waiters.push(pids[0]) + pids.drop_first().skip(0) =~= waiters + pids.skip(0));
    }
}

/// With no free tokens, `n` signal steps wake exactly the first `n` queued
/// waiters, in queue order, one per signal, and leave the count at zero.
pub proof fn lemma_sem_signals(waiters: Seq<ProcessId>, n: nat)
    requires
        n <= waiters.len(),
    ensures
        sem_signals(0nat, waiters, n) == (0nat, waiters.skip(n as int), waiters.take(n as int)),
    decreases n,
{
    if n == 0 {
        assert(waiters.skip(0) =~= waiters);
        assert(waiters.take(0) =~= Seq::<ProcessId>::empty());
        assert(sem_signals(0nat, waiters, 0nat) == (0nat, waiters, Seq::<ProcessId>::empty()));
    } else {
        let (c1, w1, woken) = sem_signal_step(0nat, waiters);
        lemma_sem_signals(waiters.drop_first(), (n - 1) as nat);
        assert(seq![waiters[0]] + waiters.drop_first().take(n - 1) =~= waiters.take(n as int));
        assert(waiters.drop_first().skip(n - 1) =~= waiters.skip(n as int));
    }
}

/// Semaphore liveness, first-in first-out: starting from `count` free
/// tokens and no waiters, a burst of wait calls beyond the count blocks the
/// excess callers in arrival order; `n` subsequent signals wake exactly the
/// first `n` of them, one per signal, in that order — and when the callers
/// are distinct, none is woken twice.
pub proof fn lemma_semaphore_fifo(count: nat, pids: Seq<ProcessId>, n: nat)
    requires
        pids.len() > count,
        n <= pids.len() - count,
    ensures
        ({
            let (c1, w1) = sem_waits(count, Seq::empty(), pids);
            let (c2, w2, woken) = sem_signals(c1, w1, n);
            &&& c1 == 0
            &&& w1 == pids.skip(count as int)
            &&& c2 == 0
            &&& w2 == pids.skip(count + n as int)
            &&& woken == pids.subrange(count as int, count + n as int)
            &&& (forall|i: int, j: int| 0 <= i < j < pids.len() ==> pids[i] != pids[j]) ==> (
            forall|i: int, j: int| 0 <= i < j < woken.len() ==> woken[i] != woken[j])
        }),
{
    lemma_sem_waits(count, Seq::empty(), pids);
    let (c1, w1) = sem_waits(count, Seq::empty(), pids);
    assert(w1 =~= pids.skip(count as int));
    lemma_sem_signals(w1, n);
    let (c2, w2, woken) = sem_signals(c1, w1, n);
    assert(w2 =~= pids.skip(count + n as int));
    assert(woken =~= pids.subrange(count as int, count + n as int));
}


/// The semaphore invariant is preserved at every observable point: from a
/// state where free tokens and waiters do not coexist, neither one wait
/// step nor one signal step produces a state where they do.
pub proof fn lemma_semaphore_invariant(count: nat, waiters: Seq<ProcessId>, pid: ProcessId)
    requires
        count > 0 ==> waiters.len() == 0,
    ensures
        ({
            let (c2, w2, blocked) = sem_wait_step(count, waiters, pid);
            c2 > 0 ==> w2.len() == 0
        }),
        ({
            let (c2, w2, woken) = sem_signal_step(count, waiters);
            c2 > 0 ==> w2.len() == 0
        }),
{
}

} // verus!
