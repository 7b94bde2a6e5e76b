//! The shareable per-process data: environment variables and the semaphore
//! table. A record holds this indirectly, so a parent and the children it
//! chooses to share with see one instance.

use crate::pid::ProcessId;
use crate::sync::{SemaphoreResult, SemaphoreSet};
use vstd::prelude::*;

verus! {

/// Data a process may share with its descendants: the environment and the
/// keyed semaphore table. (Byte I/O to devices would sit beside them in a
/// resource table; moving bytes to devices is not part of this model.)
pub struct ProcessData {
    /// Environment variables, keys unique.
    pub env: Vec<(String, String)>,
    /// The semaphore table.
    pub semaphores: SemaphoreSet,
}

impl ProcessData {
    /// Well-formedness: environment keys are unique and the semaphore table
    /// is well-formed.
    pub open spec fn wf(&self) -> bool {
        &&& forall|i: int, j: int|
            0 <= i < j < self.env@.len() ==> (#[trigger] self.env@[i]).0@ != (
            #[trigger] self.env@[j]).0@
        &&& self.semaphores.wf()
    }

    /// Whether the environment holds `key`.
    pub open spec fn has_env(&self, key: Seq<char>) -> bool {
        exists|i: int| 0 <= i < self.env@.len() && (#[trigger] self.env@[i]).0@ == key
    }

    /// The index of `key`'s environment entry; meaningful only when
    /// `has_env`.
    pub open spec fn env_index(&self, key: Seq<char>) -> int {
        choose|i: int| 0 <= i < self.env@.len() && (#[trigger] self.env@[i]).0@ == key
    }

    /// The value under `key`; meaningful only when `has_env`.
    pub open spec fn env_value(&self, key: Seq<char>) -> Seq<char> {
        self.env@[self.env_index(key)].1@
    }

    /// Fresh process data: no environment entries, no semaphores.
    pub fn new() -> (r: ProcessData)
        ensures
            r.wf(),
            r.env@.len() == 0,
            r.semaphores.sems@.len() == 0,
    {
        ProcessData { env: Vec::new(), semaphores: SemaphoreSet::new() }
    }

    /// The index of `key`'s environment entry, if any.
    fn find_env(&self, key: &str) -> (r: Option<usize>)
        requires
            self.wf(),
        ensures
            match r {
                Option::Some(i) => self.has_env(key@) && i == self.env_index(key@) && i
                    < self.env@.len() && self.env@[i as int].0@ == key@,
                Option::None => !self.has_env(key@),
            },
    {
        let key_string: String = key.to_owned();
        let mut i: usize = 0;
        while i < self.env.len()
            invariant
                self.wf(),
                key_string@ == key@,
                i <= self.env@.len(),
                forall|j: int| 0 <= j < i ==> (#[trigger] self.env@[j]).0@ != key@,
            decreases self.env@.len() - i,
        {
            if self.env[i].0 == key_string {
                proof {
                    let c = self.env_index(key@);
                    assert(0 <= c < self.env@.len() && self.env@[c].0@ == key@);
                    if c != i as int {
                        assert(false);
                    }
                }
                return Some(i);
            }
            i = i + 1;
        }
        None
    }

    /// Look an environment variable up.
    pub fn env(&self, key: &str) -> (r: Option<String>)
        requires
            self.wf(),
        ensures
            match r {
                Option::Some(v) => self.has_env(key@) && v@ == self.env_value(key@),
                Option::None => !self.has_env(key@),
            },
    {
        match self.find_env(key) {
            Some(i) => Some(self.env[i].1.clone()),
            None => None,
        }
    }

    /// Set an environment variable, replacing any previous value under the
    /// same key.
    pub fn set_env(&mut self, key: &str, val: &str)
        requires
            old(self).wf(),
        ensures
            final(self).wf(),
            final(self).has_env(key@),
            final(self).env_value(key@) == val@,
            final(self).semaphores == old(self).semaphores,
            forall|k: Seq<char>|
                #[trigger] final(self).has_env(k) == (old(self).has_env(k) || k == key@),
            forall|k: Seq<char>|
                (#[trigger] old(self).has_env(k)) && k != key@ ==> final(self).env_value(k) == old(self).env_value(k),
    {
        match self.find_env(key) {
            Some(i) => {
                let mut entry = self.env.remove(i);
                entry.1 = val.to_owned();
                self.env.insert(i, entry);
                proof {
                    let olds = old(self).env@;
                    let news = self.env@;
                    let idx = i as int;
                    assert(news.len() == olds.len());
                    assert(forall|j: int| 0 <= j < olds.len() && j != idx ==> news[j] == olds[j]);
                    assert(news[idx].0@ == key@);
                    assert forall|k: Seq<char>| #[trigger] old(self).has_env(k) && k
                        != key@ implies self.has_env(k) && self.env_value(k) == old(self).env_value(k) by {
                        let oi = old(self).env_index(k);
                        assert(olds[oi].0@ == k);
                        assert(oi != idx);
                        assert(news[oi].0@ == k);
                        let j = self.env_index(k);
                        if j != oi {
                            assert(false);
                        }
                    }
                    assert forall|k: Seq<char>| self.has_env(k) implies old(self).has_env(k) || k
                        == key@ by {
                        let j = self.env_index(k);
                        if j != idx {
                            assert(olds[j].0@ == k);
                        }
                    }
                    assert(self.has_env(key@));
                    assert(self.env_index(key@) == idx) by {
                        let j = self.env_index(key@);
                        if j != idx {
                            assert(olds[j].0@ == key@);
                            assert(false);
                        }
                    }
                }
            },
            None => {
                self.env.push((key.to_owned(), val.to_owned()));
                proof {
                    let olds = old(self).env@;
                    let news = self.env@;
                    let idx = olds.len() as int;
                    assert(news[idx].0@ == key@);
                    assert forall|k: Seq<char>| #[trigger] old(self).has_env(k) && k
                        != key@ implies self.has_env(k) && self.env_value(k) == old(self).env_value(k) by {
                        let oi = old(self).env_index(k);
                        assert(olds[oi].0@ == k);
                        assert(news[oi].0@ == k);
                        let j = self.env_index(k);
                        if j != oi {
                            assert(false);
                        }
                    }
                    assert forall|k: Seq<char>| self.has_env(k) implies old(self).has_env(k) || k
                        == key@ by {
                        let j = self.env_index(k);
                        if j != idx {
                            assert(olds[j].0@ == k);
                        }
                    }
                    assert(self.has_env(key@));
                    assert(self.env_index(key@) == idx) by {
                        let j = self.env_index(key@);
                        if j != idx {
                            assert(olds[j].0@ == key@);
                            assert(false);
                        }
                    }
                }
            },
        }
    }

    /// Create a semaphore under `key` in this data's table.
    pub fn new_sem(&mut self, key: u32, value: usize) -> (r: bool)
        requires
            old(self).wf(),
        ensures
            final(self).wf(),
            final(self).env == old(self).env,
            r == !old(self).semaphores.has_key(key),
            !r ==> final(self).semaphores == old(self).semaphores,
            r ==> final(self).semaphores.has_key(key) && final(self).semaphores.count_of(key)
                == value && final(self).semaphores.waiters_of(key) == Seq::<ProcessId>::empty(),
    {
        self.semaphores.insert(key, value)
    }

    /// Drop the semaphore under `key` from this data's table.
    pub fn remove_sem(&mut self, key: u32) -> (r: bool)
        requires
            old(self).wf(),
        ensures
            final(self).wf(),
            final(self).env == old(self).env,
            r == old(self).semaphores.has_key(key),
            !r ==> final(self).semaphores == old(self).semaphores,
            r ==> !final(self).semaphores.has_key(key),
    {
        self.semaphores.remove(key)
    }

    /// One wait step on the semaphore under `key`, for process `pid`.
    pub fn sem_wait(&mut self, key: u32, pid: ProcessId) -> (r: SemaphoreResult)
        requires
            old(self).wf(),
        ensures
            final(self).wf(),
            final(self).env == old(self).env,
            !old(self).semaphores.has_key(key) ==> r == SemaphoreResult::NotExist && final(self).semaphores == old(self).semaphores,
            old(self).semaphores.has_key(key) ==> {
                let (c2, w2, blocked) = crate::sync::sem_wait_step(
                    old(self).semaphores.count_of(key),
                    old(self).semaphores.waiters_of(key),
                    pid,
                );
                &&& final(self).semaphores.has_key(key)
                &&& final(self).semaphores.count_of(key) == c2
                &&& final(self).semaphores.waiters_of(key) == w2
                &&& r == (if blocked {
                    SemaphoreResult::Block(pid)
                } else {
                    SemaphoreResult::Done
                })
            },
    {
        self.semaphores.wait(key, pid)
    }

    /// One signal step on the semaphore under `key`.
    pub fn sem_signal(&mut self, key: u32) -> (r: SemaphoreResult)
        requires
            old(self).wf(),
            old(self).semaphores.has_key(key) ==> old(self).semaphores.count_of(key) < usize::MAX,
        ensures
            final(self).wf(),
            final(self).env == old(self).env,
            !old(self).semaphores.has_key(key) ==> r == SemaphoreResult::NotExist && final(self).semaphores == old(self).semaphores,
            old(self).semaphores.has_key(key) ==> {
                let (c2, w2, woken) = crate::sync::sem_signal_step(
                    old(self).semaphores.count_of(key),
                    old(self).semaphores.waiters_of(key),
                );
                &&& final(self).semaphores.has_key(key)
                &&& final(self).semaphores.count_of(key) == c2
                &&& final(self).semaphores.waiters_of(key) == w2
                &&& r == (match woken {
                    Option::Some(w) => SemaphoreResult::WakeUp(w),
                    Option::None => SemaphoreResult::Done,
                })
            },
    {
        self.semaphores.signal(key)
    }
}

} // verus!
