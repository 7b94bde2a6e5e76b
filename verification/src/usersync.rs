//! The user-side synchronization handles: a spin lock, and the thin
//! semaphore handle that carries a key and asks the kernel to do the work.
//! On the single modelled core the kernel is reached by calling the
//! process manager directly.

use crate::context::ProcessContext;
use crate::manager::ProcessManager;
use vstd::prelude::*;

verus! {

/// A test-and-set lock. On the single modelled core no one contends while
/// the holder runs, so acquiring demands the lock be free — where real
/// hardware would spin on that same condition.
pub struct SpinLock {
    /// Whether some holder has the lock.
    pub locked: bool,
}

impl SpinLock {
    /// A fresh, free lock.
    pub fn new() -> (r: SpinLock)
        ensures
            !r.locked,
    {
        SpinLock { locked: false }
    }

    /// Take the lock.
    pub fn acquire(&mut self)
        requires
            !old(self).locked,
        ensures
            final(self).locked,
    {
        self.locked = true;
    }

    /// Release the lock.
    pub fn release(&mut self)
        ensures
            !final(self).locked,
    {
        self.locked = false;
    }
}

/// A user-space semaphore handle: nothing but the key under which the
/// kernel keeps the real semaphore in the caller's shared data.
#[derive(Clone, Copy, Debug, PartialEq, Eq, Structural)]
pub struct Semaphore {
    /// The key this handle names.
    pub key: u32,
}

impl Semaphore {
    /// A handle for `key`.
    pub fn new(key: u32) -> (r: Semaphore)
        ensures
            r.key == key,
    {
        Semaphore { key }
    }

    /// Create the semaphore under this handle's key with `value` free
    /// tokens. Fails when the key is already taken.
    pub fn init(&self, manager: &mut ProcessManager, value: usize) -> (r: bool)
        requires
            old(manager).wf(),
        ensures
            final(manager).wf(),
            ({
                let did = old(manager).proc_of(old(manager).current).data_id as int;
                let d0 = old(manager).datas@[did].semaphores;
                &&& r == !d0.has_key(self.key)
                &&& r ==> {
                    let d2 = final(manager).datas@[did].semaphores;
                    &&& d2.has_key(self.key)
                    &&& d2.count_of(self.key) == value
                    &&& d2.waiters_of(self.key) == Seq::<crate::pid::ProcessId>::empty()
                }
            }),
    {
        manager.new_sem(self.key, value)
    }

    /// One wait on the semaphore under this handle's key: take a token or
    /// block, exactly as the kernel's wait path says.
    pub fn wait(&self, manager: &mut ProcessManager, context: &mut ProcessContext)
        requires
            old(manager).wf(),
            !(old(manager).status_of(old(manager).current) is Dead),
        ensures
            final(manager).wf(),
            crate::manager::sem_wait_rel(
                *old(manager),
                *final(manager),
                self.key,
                *old(context),
                *final(context),
            ),
    {
        manager.sem_wait(self.key, context)
    }

    /// One signal on the semaphore under this handle's key: wake the
    /// longest-blocked waiter or free a token, exactly as the kernel's
    /// signal path says.
    pub fn signal(&self, manager: &mut ProcessManager, context: &mut ProcessContext)
        requires
            old(manager).wf(),
            ({
                let did = old(manager).proc_of(old(manager).current).data_id as int;
                let d0 = old(manager).datas@[did].semaphores;
                d0.has_key(self.key) ==> d0.count_of(self.key) < usize::MAX
            }),
        ensures
            final(manager).wf(),
            crate::manager::sem_signal_rel(
                *old(manager),
                *final(manager),
                self.key,
                *old(context),
                *final(context),
            ),
    {
        manager.sem_signal(self.key, context)
    }

    /// Drop the semaphore under this handle's key. Fails when no such key
    /// exists.
    pub fn remove(&self, manager: &mut ProcessManager) -> (r: bool)
        requires
            old(manager).wf(),
        ensures
            final(manager).wf(),
            ({
                let did = old(manager).proc_of(old(manager).current).data_id as int;
                let d0 = old(manager).datas@[did].semaphores;
                &&& r == d0.has_key(self.key)
                &&& r ==> !final(manager).datas@[did].semaphores.has_key(self.key)
            }),
    {
        manager.remove_sem(self.key)
    }
}

} // verus!
