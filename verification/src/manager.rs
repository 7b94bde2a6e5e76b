//! The process manager: the single owner of the process table, the ready
//! queue, the wait-for-exit queue and the shared data table, and the home
//! of the scheduling, termination, fork and synchronization algorithms.
//!
//! Hardware hands control here with interrupts disabled; on a single core
//! that masking is the only mutual exclusion these structures need, so the
//! manager owns them directly and every operation is a plain, atomic state
//! transition.

use crate::context::ProcessContext;
use crate::data::ProcessData;
use crate::pid::ProcessId;
use crate::process::{Process, ProgramStatus};
use crate::vm::{PageTableContext, ProcessVm, STACK_WINDOWS};
use std::collections::VecDeque;
use vstd::prelude::*;

verus! {

/// One loadable application image, as the boot loader hands it over: its
/// name and where execution starts. Loading the image's segments is the
/// loader's business; the process core needs only this much.
pub struct AppEntry {
    /// The program's name, as `spawn` looks it up.
    pub name: String,
    /// The image's entry point.
    pub entry: u64,
}

/// One wait-for-exit registration: the target and the processes blocked
/// until it exits, kept sorted by identifier.
pub struct WaitEntry {
    /// The process whose exit is awaited.
    pub target: ProcessId,
    /// The processes blocked on that exit, strictly ascending.
    pub waiters: Vec<ProcessId>,
}

/// One row of the diagnostic process listing.
#[derive(Debug)]
pub struct ProcessRow {
    /// The process's identifier.
    pub pid: u16,
    /// The parent's identifier, if any.
    pub parent: Option<u16>,
    /// The process's name.
    pub name: String,
    /// The scheduling counter.
    pub ticks: u64,
    /// The lifecycle state.
    pub status: ProgramStatus,
}

/// Whether the wait-queue view holds an entry for `target`.
pub open spec fn wq_has(wq: Seq<WaitEntry>, target: ProcessId) -> bool {
    exists|i: int| 0 <= i < wq.len() && (#[trigger] wq[i]).target == target
}

/// The index of `target`'s entry in the wait-queue view; meaningful only
/// when `wq_has`.
pub open spec fn wq_index(wq: Seq<WaitEntry>, target: ProcessId) -> int {
    choose|i: int| 0 <= i < wq.len() && (#[trigger] wq[i]).target == target
}

/// The waiters registered for `target` in the wait-queue view; empty when
/// no entry exists.
pub open spec fn wq_waiters(wq: Seq<WaitEntry>, target: ProcessId) -> Seq<ProcessId> {
    if wq_has(wq, target) {
        wq[wq_index(wq, target)].waiters@
    } else {
        Seq::empty()
    }
}

/// The process manager's whole state.
pub struct ProcessManager {
    /// The process table. The record with identifier `i + 1` sits at index
    /// `i`; the table only ever grows, so dead records persist and their
    /// exit codes stay retrievable.
    pub processes: Vec<Process>,
    /// Identifiers of processes eligible to run, front first.
    pub ready_queue: VecDeque<ProcessId>,
    /// Wait-for-exit registrations, targets unique.
    pub wait_queue: Vec<WaitEntry>,
    /// The shared data instances records point into.
    pub datas: Vec<ProcessData>,
    /// The read-only table of loadable applications.
    pub app_list: Vec<AppEntry>,
    /// The process now holding the processor.
    pub current: ProcessId,
    /// The next fresh address-space identity.
    pub next_table_id: u64,
}

impl ProcessManager {
    /// Whether `pid` names a record of this table.
    pub open spec fn pid_valid(&self, pid: ProcessId) -> bool {
        1 <= pid.0 <= self.processes@.len()
    }

    /// The record of `pid`; meaningful only when `pid_valid`.
    pub open spec fn proc_of(&self, pid: ProcessId) -> Process {
        self.processes@[pid.0 - 1]
    }

    /// The status of `pid`'s record; meaningful only when `pid_valid`.
    pub open spec fn status_of(&self, pid: ProcessId) -> ProgramStatus {
        self.proc_of(pid).status
    }

    /// The recorded exit code of `pid`: `None` when the identifier is
    /// unknown or the process has not exited.
    pub open spec fn exit_code_spec(&self, pid: ProcessId) -> Option<isize> {
        if self.pid_valid(pid) {
            self.proc_of(pid).exit_code
        } else {
            Option::None
        }
    }

    /// Whether someone is registered as waiting for `target`'s exit.
    pub open spec fn has_wait_entry(&self, target: ProcessId) -> bool {
        wq_has(self.wait_queue@, target)
    }

    /// The index of `target`'s wait entry; meaningful only when
    /// `has_wait_entry`.
    pub open spec fn wait_entry_index(&self, target: ProcessId) -> int {
        wq_index(self.wait_queue@, target)
    }

    /// The processes registered as waiting for `target`'s exit, ascending;
    /// empty when none are.
    pub open spec fn waiters_of(&self, target: ProcessId) -> Seq<ProcessId> {
        wq_waiters(self.wait_queue@, target)
    }

    /// Well-formedness of one wait entry against this table.
    pub open spec fn wait_entry_wf(&self, e: WaitEntry) -> bool {
        &&& self.pid_valid(e.target)
        &&& forall|k: int| 0 <= k < e.waiters@.len() ==> self.pid_valid(#[trigger] e.waiters@[k])
        &&& forall|k: int, l: int|
            0 <= k < l < e.waiters@.len() ==> (#[trigger] e.waiters@[k]).0 < (
            #[trigger] e.waiters@[l]).0
    }

    /// The manager's well-formedness: the table is non-empty and bounded by
    /// the number of stack windows, identifiers equal position plus one,
    /// every record is well-formed and points at a real data instance, the
    /// current process exists, wait entries name real processes with
    /// ascending waiters and unique targets, and every data instance is
    /// well-formed.
    pub open spec fn wf(&self) -> bool {
        &&& 1 <= self.processes@.len() < STACK_WINDOWS
        &&& forall|i: int|
            0 <= i < self.processes@.len() ==> (#[trigger] self.processes@[i]).pid.0 == i + 1
        &&& forall|i: int| 0 <= i < self.processes@.len() ==> (#[trigger] self.processes@[i]).wf()
        &&& forall|i: int|
            0 <= i < self.processes@.len() ==> (#[trigger] self.processes@[i]).data_id
                < self.datas@.len()
        &&& self.pid_valid(self.current)
        &&& forall|i: int| 0 <= i < self.datas@.len() ==> (#[trigger] self.datas@[i]).wf()
        &&& forall|i: int|
            0 <= i < self.wait_queue@.len() ==> self.wait_entry_wf(#[trigger] self.wait_queue@[i])
        &&& forall|i: int, j: int|
            0 <= i < j < self.wait_queue@.len() ==> (#[trigger] self.wait_queue@[i]).target != (
            #[trigger] self.wait_queue@[j]).target
        &&& self.next_table_id <= self.processes@.len()
    }

    /// A manager around an already running first process — the kernel —
    /// and the application table.
    pub fn new(init: Process, init_data: ProcessData, app_list: Vec<AppEntry>) -> (r:
        ProcessManager)
        requires
            init.wf(),
            init.pid.0 == 1,
            init.data_id == 0,
            init_data.wf(),
        ensures
            r.wf(),
            r.processes@.len() == 1,
            r.processes@[0] == init,
            r.current.0 == 1,
            r.ready_queue@.len() == 0,
            r.wait_queue@.len() == 0,
            r.datas@.len() == 1,
            r.datas@[0] == init_data,
            r.app_list == app_list,
    {
        let mut processes: Vec<Process> = Vec::new();
        processes.push(init);
        let mut datas: Vec<ProcessData> = Vec::new();
        datas.push(init_data);
        ProcessManager {
            processes,
            ready_queue: VecDeque::new(),
            wait_queue: Vec::new(),
            datas,
            app_list,
            current: ProcessId(1),
            next_table_id: 1,
        }
    }

    /// Push a process to the back of the ready queue.
    pub fn push_ready(&mut self, pid: ProcessId)
        requires
            old(self).wf(),
        ensures
            final(self).wf(),
            *final(self) == (ProcessManager { ready_queue: final(self).ready_queue, ..*old(self) }),
            final(self).ready_queue@ == old(self).ready_queue@.push(pid),
    {
        self.ready_queue.push_back(pid);
    }

    /// The index of `pid`'s record, if the identifier names one.
    fn index_of(&self, pid: ProcessId) -> (r: Option<usize>)
        requires
            self.wf(),
        ensures
            match r {
                Option::Some(i) => self.pid_valid(pid) && i == pid.0 - 1,
                Option::None => !self.pid_valid(pid),
            },
    {
        if 1 <= pid.0 && (pid.0 as usize) <= self.processes.len() {
            Some((pid.0 - 1) as usize)
        } else {
            None
        }
    }

    /// The identifier of the process now holding the processor.
    pub fn get_current_pid(&self) -> (r: ProcessId)
        requires
            self.wf(),
        ensures
            r == self.current,
    {
        self.current
    }

    /// The recorded exit code of `pid`, if it has exited.
    pub fn get_exit_code(&self, pid: ProcessId) -> (r: Option<isize>)
        requires
            self.wf(),
        ensures
            r == self.exit_code_spec(pid),
    {
        match self.index_of(pid) {
            Some(i) => self.processes[i].exit_code,
            None => None,
        }
    }

    /// Whether `pid` has not yet recorded an exit code. An unknown
    /// identifier counts as alive: no code will ever be on record for it.
    pub fn still_alive(&self, pid: ProcessId) -> (r: bool)
        requires
            self.wf(),
        ensures
            r == (self.exit_code_spec(pid) is None),
    {
        match self.get_exit_code(pid) {
            Some(_) => false,
            None => true,
        }
    }

    /// Look `key` up in the current process's environment.
    pub fn env(&self, key: &str) -> (r: Option<String>)
        requires
            self.wf(),
        ensures
            ({
                let data = self.datas@[self.proc_of(self.current).data_id as int];
                match r {
                    Option::Some(v) => data.has_env(key@) && v@ == data.env_value(key@),
                    Option::None => !data.has_env(key@),
                }
            }),
    {
        let i = (self.current.0 - 1) as usize;
        let data_id = self.processes[i].data_id;
        self.datas[data_id].env(key)
    }

    /// The names of the loadable applications.
    pub fn list_apps(&self) -> (r: Vec<String>)
        requires
            self.wf(),
        ensures
            r@.len() == self.app_list@.len(),
            forall|i: int| 0 <= i < r@.len() ==> r@[i]@ == (#[trigger] self.app_list@[i]).name@,
    {
        let mut names: Vec<String> = Vec::new();
        let mut i: usize = 0;
        while i < self.app_list.len()
            invariant
                self.wf(),
                i <= self.app_list@.len(),
                names@.len() == i,
                forall|j: int|
                    0 <= j < i ==> names@[j]@ == (#[trigger] self.app_list@[j]).name@,
            decreases self.app_list@.len() - i,
        {
            names.push(self.app_list[i].name.clone());
            i = i + 1;
        }
        names
    }

    /// One listing row for each process that is not dead, in identifier
    /// order.
    pub fn list_process(&self) -> (r: Vec<ProcessRow>)
        requires
            self.wf(),
        ensures
            r@ == rows_of(self.processes@),
    {
        let mut rows: Vec<ProcessRow> = Vec::new();
        let mut i: usize = 0;
        while i < self.processes.len()
            invariant
                self.wf(),
                i <= self.processes@.len(),
                rows@ == rows_of(self.processes@.take(i as int)),
            decreases self.processes@.len() - i,
        {
            let p = &self.processes[i];
            proof {
                lemma_rows_of_snoc(self.processes@.take(i as int), self.processes@[i as int]);
                assert(self.processes@.take(i as int).push(self.processes@[i as int])
                    =~= self.processes@.take(i as int + 1));
            }
            if !matches!(p.status, ProgramStatus::Dead) {
                let parent = match p.parent {
                    Some(pp) => Some(pp.0),
                    None => None,
                };
                rows.push(
                    ProcessRow {
                        pid: p.pid.0,
                        parent,
                        name: p.name.clone(),
                        ticks: p.ticks,
                        status: p.status,
                    },
                );
            }
            i = i + 1;
        }
        proof {
            assert(self.processes@.take(self.processes@.len() as int) =~= self.processes@);
        }
        rows
    }
}

/// The listing row a record yields.
pub open spec fn row_of(p: Process) -> ProcessRow {
    ProcessRow {
        pid: p.pid.0,
        parent: match p.parent {
            Option::Some(pp) => Option::Some(pp.0),
            Option::None => Option::None,
        },
        name: p.name,
        ticks: p.ticks,
        status: p.status,
    }
}

/// The listing rows of a process table: one per record that is not dead,
/// in table order.
pub open spec fn rows_of(procs: Seq<Process>) -> Seq<ProcessRow>
    decreases procs.len(),
{
    if procs.len() == 0 {
        Seq::empty()
    } else {
        rows_of(procs.drop_last()) + (if procs.last().status is Dead {
            Seq::empty()
        } else {
            seq![row_of(procs.last())]
        })
    }
}

/// Appending one record appends its row, or nothing when it is dead.
proof fn lemma_rows_of_snoc(procs: Seq<Process>, p: Process)
    ensures
        rows_of(procs.push(p)) == rows_of(procs) + (if p.status is Dead {
            Seq::<ProcessRow>::empty()
        } else {
            seq![row_of(p)]
        }),
{
    assert(procs.push(p).drop_last() =~= procs);
    assert(procs.push(p).last() == p);
}


/// The record of a woken process: ready again, its return-value register
/// set when the wake carries one.
pub open spec fn woken_record(p: Process, ret: Option<isize>) -> Process {
    Process {
        status: ProgramStatus::Ready,
        context: match ret {
            Option::Some(v) => crate::context::ProcessContext { rax: v as u64, ..p.context },
            Option::None => p.context,
        },
        ..p
    }
}

/// One wake on the (table view, queue view) pair: a real, not-dead process
/// becomes ready, gets the return value, and is enqueued; anything else is
/// left alone.
pub open spec fn wake_one(
    procs: Seq<Process>,
    queue: Seq<ProcessId>,
    w: ProcessId,
    ret: Option<isize>,
) -> (Seq<Process>, Seq<ProcessId>) {
    if 1 <= w.0 <= procs.len() && !(procs[w.0 - 1].status is Dead) {
        (procs.update(w.0 - 1, woken_record(procs[w.0 - 1], ret)), queue.push(w))
    } else {
        (procs, queue)
    }
}

/// Waking each of `ws` in turn.
pub open spec fn wake_fold(
    procs: Seq<Process>,
    queue: Seq<ProcessId>,
    ws: Seq<ProcessId>,
    ret: Option<isize>,
) -> (Seq<Process>, Seq<ProcessId>)
    decreases ws.len(),
{
    if ws.len() == 0 {
        (procs, queue)
    } else {
        let (p1, q1) = wake_one(procs, queue, ws[0], ret);
        wake_fold(p1, q1, ws.drop_first(), ret)
    }
}

/// Folding one more wake at the end.
pub proof fn lemma_wake_fold_snoc(
    procs: Seq<Process>,
    queue: Seq<ProcessId>,
    ws: Seq<ProcessId>,
    w: ProcessId,
    ret: Option<isize>,
)
    ensures
        ({
            let (p1, q1) = wake_fold(procs, queue, ws, ret);
            wake_fold(procs, queue, ws.push(w), ret) == wake_one(p1, q1, w, ret)
        }),
    decreases ws.len(),
{
    if ws.len() == 0 {
        let (p1, q1) = wake_one(procs, queue, w, ret);
        assert(wake_fold(procs, queue, ws, ret) == (procs, queue));
        assert(ws.push(w)[0] == w);
        assert(ws.push(w).drop_first() =~= Seq::<ProcessId>::empty());
        assert(wake_fold(p1, q1, Seq::<ProcessId>::empty(), ret) == (p1, q1));
        assert(wake_fold(procs, queue, ws.push(w), ret) == (p1, q1));
    } else {
        let (p1, q1) = wake_one(procs, queue, ws[0], ret);
        lemma_wake_fold_snoc(p1, q1, ws.drop_first(), w, ret);
        assert(ws.push(w)[0] == ws[0]);
        assert(ws.push(w).drop_first() =~= ws.drop_first().push(w));
        assert(wake_fold(procs, queue, ws.push(w), ret) == wake_fold(
            p1,
            q1,
            ws.drop_first().push(w),
            ret,
        ));
        assert(wake_fold(procs, queue, ws, ret) == wake_fold(p1, q1, ws.drop_first(), ret));
    }
}

/// What a whole fold of wakes does: it touches exactly the named processes
/// that exist and are not dead — each becomes ready with the return value,
/// and lands in the queue — and leaves every other record alone.
pub proof fn lemma_wake_fold(
    procs: Seq<Process>,
    queue: Seq<ProcessId>,
    ws: Seq<ProcessId>,
    ret: Option<isize>,
)
    requires
        forall|k: int, l: int| 0 <= k < l < ws.len() ==> (#[trigger] ws[k]) != (#[trigger] ws[l]),
    ensures
        ({
            let (p2, q2) = wake_fold(procs, queue, ws, ret);
            &&& p2.len() == procs.len()
            &&& forall|i: int|
                0 <= i < procs.len() && !ws.contains(ProcessId((i + 1) as u16)) ==> (
                #[trigger] p2[i]) == procs[i]
            &&& forall|j: int|
                0 <= j < ws.len() && 1 <= (#[trigger] ws[j]).0 <= procs.len() ==> (if procs[ws[j].0
                    - 1].status is Dead {
                    p2[ws[j].0 - 1] == procs[ws[j].0 - 1]
                } else {
                    p2[ws[j].0 - 1] == woken_record(procs[ws[j].0 - 1], ret) && q2.contains(ws[j])
                })
            &&& forall|x: ProcessId| queue.contains(x) ==> #[trigger] q2.contains(x)
            &&& forall|x: ProcessId|
                #[trigger] q2.contains(x) ==> queue.contains(x) || ws.contains(x)
        }),
    decreases ws.len(),
{
    if ws.len() == 0 {
    } else {
        let w0 = ws[0];
        let (p1, q1) = wake_one(procs, queue, w0, ret);
        lemma_wake_fold(p1, q1, ws.drop_first(), ret);
        let (p2, q2) = wake_fold(procs, queue, ws, ret);
        assert forall|j: int|
            0 <= j < ws.len() && 1 <= (#[trigger] ws[j]).0 <= procs.len() implies (if procs[ws[j].0
            - 1].status is Dead {
            p2[ws[j].0 - 1] == procs[ws[j].0 - 1]
        } else {
            p2[ws[j].0 - 1] == woken_record(procs[ws[j].0 - 1], ret) && q2.contains(ws[j])
        }) by {
            if j == 0 {
                if !(procs[w0.0 - 1].status is Dead) {
                    assert(q1.contains(w0)) by {
                        assert(q1 == queue.push(w0));
                        assert(q1[q1.len() - 1] == w0);
                    }
                    assert(!ws.drop_first().contains(ProcessId(((w0.0 - 1) + 1) as u16))) by {
                        if ws.drop_first().contains(w0) {
                            let k = choose|k: int|
                                0 <= k < ws.drop_first().len() && ws.drop_first()[k] == w0;
                            assert(ws[k + 1] == w0);
                        }
                    }
                }
            } else {
                assert(ws.drop_first()[j - 1] == ws[j]);
                if 1 <= ws[j].0 <= procs.len() {
                    assert(p1[ws[j].0 - 1] == procs[ws[j].0 - 1]) by {
                        if ws.drop_first().contains(w0) {
                            let k = choose|k: int|
                                0 <= k < ws.drop_first().len() && ws.drop_first()[k] == w0;
                            assert(ws[k + 1] == w0);
                        }
                        assert(ws[j] != w0);
                    }
                }
            }
        }
        assert forall|i: int|
            0 <= i < procs.len() && !ws.contains(ProcessId((i + 1) as u16)) implies (
        #[trigger] p2[i]) == procs[i] by {
            assert(ws[0] != ProcessId((i + 1) as u16));
            assert(!ws.drop_first().contains(ProcessId((i + 1) as u16))) by {
                if ws.drop_first().contains(ProcessId((i + 1) as u16)) {
                    let k = choose|k: int|
                        0 <= k < ws.drop_first().len() && ws.drop_first()[k] == ProcessId(
                            (i + 1) as u16,
                        );
                    assert(ws[k + 1] == ProcessId((i + 1) as u16));
                }
            }
        }
        assert forall|x: ProcessId| #[trigger] q2.contains(x) implies queue.contains(x)
            || ws.contains(x) by {
            if q1.contains(x) && !queue.contains(x) {
                assert(q1 == queue.push(x) || x != w0 || true);
            }
            if !queue.contains(x) && !ws.drop_first().contains(x) {
                if q1.contains(x) {
                    let k = choose|k: int| 0 <= k < q1.len() && q1[k] == x;
                    if k < queue.len() {
                        assert(queue[k] == x);
                    } else {
                        assert(x == w0);
                        assert(ws.contains(x));
                    }
                }
            } else {
                if ws.drop_first().contains(x) {
                    let k = choose|k: int|
                        0 <= k < ws.drop_first().len() && ws.drop_first()[k] == x;
                    assert(ws[k + 1] == x);
                }
            }
        }
        assert forall|x: ProcessId| queue.contains(x) implies #[trigger] q2.contains(x) by {
            if !(q1 == queue) {
                let k = choose|k: int| 0 <= k < queue.len() && queue[k] == x;
                assert(q1[k] == x);
            }
        }
    }
}

impl ProcessManager {
    /// Wake `pid` up: mark it ready, set its return-value register when
    /// `ret` carries one, and enqueue it. Unknown identifiers are ignored,
    /// and a dead record stays dead — being woken is no way out of
    /// termination.
    pub fn wake_up(&mut self, pid: ProcessId, ret: Option<isize>)
        requires
            old(self).wf(),
        ensures
            final(self).wf(),
            *final(self) == (ProcessManager {
                processes: final(self).processes,
                ready_queue: final(self).ready_queue,
                ..*old(self)
            }),
            ({
                let (p2, q2) = wake_one(old(self).processes@, old(self).ready_queue@, pid, ret);
                final(self).processes@ == p2 && final(self).ready_queue@ == q2
            }),
    {
        let i = match self.index_of(pid) {
            Some(i) => i,
            None => {
                return ;
            },
        };
        if matches!(self.processes[i].status, ProgramStatus::Dead) {
            return ;
        }
        let mut p = self.processes.remove(i);
        match ret {
            Some(v) => p.set_rax(#[verifier::truncate] (v as u64)),
            None => {},
        }
        p.pause();
        self.processes.insert(i, p);
        self.ready_queue.push_back(pid);
        proof {
            assert(self.processes@ =~= old(self).processes@.update(
                i as int,
                woken_record(old(self).processes@[i as int], ret),
            ));
            assert(self.wf()) by {
                assert(forall|j: int|
                    0 <= j < self.processes@.len() && j != i as int ==> self.processes@[j] == old(self).processes@[j]);
            }
        }
    }

    /// Mark `pid` blocked, so the scheduler passes it over until an
    /// explicit wake. Unknown identifiers are ignored, and a dead record
    /// stays dead.
    pub fn block(&mut self, pid: ProcessId)
        requires
            old(self).wf(),
        ensures
            final(self).wf(),
            *final(self) == (ProcessManager { processes: final(self).processes, ..*old(self) }),
            !old(self).pid_valid(pid) || old(self).status_of(pid) is Dead ==> *final(self) == *old(self),
            old(self).pid_valid(pid) && !(old(self).status_of(pid) is Dead) ==> final(self).processes@ == old(self).processes@.update(
                pid.0 - 1,
                (Process { status: ProgramStatus::Blocked, ..old(self).proc_of(pid) }),
            ),
    {
        let i = match self.index_of(pid) {
            Some(i) => i,
            None => {
                return ;
            },
        };
        if matches!(self.processes[i].status, ProgramStatus::Dead) {
            return ;
        }
        let mut p = self.processes.remove(i);
        p.block();
        self.processes.insert(i, p);
        proof {
            assert(self.processes@ =~= old(self).processes@.update(
                i as int,
                (Process { status: ProgramStatus::Blocked, ..old(self).proc_of(pid) }),
            ));
            assert(forall|j: int|
                0 <= j < self.processes@.len() && j != i as int ==> self.processes@[j] == old(self).processes@[j]);
        }
    }

    /// The index of `target`'s wait entry, if any.
    fn find_wait_entry(&self, target: ProcessId) -> (r: Option<usize>)
        requires
            self.wf(),
        ensures
            match r {
                Option::Some(i) => self.has_wait_entry(target) && i == self.wait_entry_index(
                    target,
                ) && i < self.wait_queue@.len() && self.wait_queue@[i as int].target == target,
                Option::None => !self.has_wait_entry(target),
            },
    {
        let mut i: usize = 0;
        while i < self.wait_queue.len()
            invariant
                self.wf(),
                i <= self.wait_queue@.len(),
                forall|j: int| 0 <= j < i ==> (#[trigger] self.wait_queue@[j]).target != target,
            decreases self.wait_queue@.len() - i,
        {
            if self.wait_queue[i].target == target {
                proof {
                    let c = self.wait_entry_index(target);
                    assert(0 <= c < self.wait_queue@.len() && self.wait_queue@[c].target == target);
                    if c != i as int {
                        assert(false);
                    }
                }
                return Some(i);
            }
            i = i + 1;
        }
        None
    }

    /// Kill `pid` with exit code `ret`: a no-op when the identifier is
    /// unknown or the record is already dead; otherwise the record becomes
    /// dead with `ret` as its exit code, and the full set of processes
    /// registered as waiting for it is popped and woken in one step, each
    /// with `ret` as its return value.
    pub fn kill(&mut self, pid: ProcessId, ret: isize)
        requires
            old(self).wf(),
        ensures
            final(self).wf(),
            (!old(self).pid_valid(pid) || old(self).status_of(pid) is Dead) ==> *final(self)
                == *old(self),
            (old(self).pid_valid(pid) && !(old(self).status_of(pid) is Dead)) ==> {
                let killed = old(self).processes@.update(
                    pid.0 - 1,
                    (Process {
                        status: ProgramStatus::Dead,
                        exit_code: Option::Some(ret),
                        ..old(self).proc_of(pid)
                    }),
                );
                let ws = old(self).waiters_of(pid);
                let (p2, q2) = wake_fold(killed, old(self).ready_queue@, ws, Option::Some(ret));
                &&& final(self).processes@ == p2
                &&& final(self).ready_queue@ == q2
                &&& *final(self) == (ProcessManager {
                    processes: final(self).processes,
                    ready_queue: final(self).ready_queue,
                    wait_queue: final(self).wait_queue,
                    ..*old(self)
                })
                &&& !final(self).has_wait_entry(pid)
                &&& forall|t: ProcessId|
                    #[trigger] final(self).has_wait_entry(t) == (old(self).has_wait_entry(t) && t
                        != pid)
                &&& forall|t: ProcessId|
                    (#[trigger] old(self).has_wait_entry(t)) && t != pid ==> final(self).waiters_of(t) == old(self).waiters_of(t)
                &&& final(self).processes@.len() == old(self).processes@.len()
                &&& final(self).status_of(pid) is Dead
                &&& final(self).proc_of(pid).exit_code == Option::Some(ret)
                // every live registered waiter is woken in this one step,
                // ready again, enqueued, with `ret` as its return value
                &&& forall|j: int|
                    0 <= j < ws.len() && (#[trigger] ws[j]) != pid && !(old(self).status_of(
                        ws[j],
                    ) is Dead) ==> final(self).proc_of(ws[j]).status is Ready && final(self).proc_of(ws[j]).context.rax == ret as u64 && final(self).ready_queue@.contains(ws[j])
            },
    {
        let i = match self.index_of(pid) {
            Some(i) => i,
            None => {
                return ;
            },
        };
        if matches!(self.processes[i].status, ProgramStatus::Dead) {
            return ;
        }
        let mut p = self.processes.remove(i);
        p.kill(ret);
        self.processes.insert(i, p);
        proof {
            assert(self.processes@ =~= old(self).processes@.update(
                i as int,
                (Process {
                    status: ProgramStatus::Dead,
                    exit_code: Option::Some(ret),
                    ..old(self).proc_of(pid)
                }),
            ));
            assert(forall|j: int|
                0 <= j < self.processes@.len() && j != i as int ==> self.processes@[j] == old(self).processes@[j]);
        }
        let ghost killed = self.processes@;
        let waiters: Vec<ProcessId> = match self.find_wait_entry(pid) {
            Some(w) => {
                let entry = self.wait_queue.remove(w);
                proof {
                    let olds = old(self).wait_queue@;
                    let news = self.wait_queue@;
                    let idx = w as int;
                    assert forall|t: ProcessId| wq_has(olds, t) && t != pid implies #[trigger] wq_has(news, t) && wq_waiters(news, t) == wq_waiters(olds, t) by {
                        let oi = wq_index(olds, t);
                        assert(olds[oi].target == t);
                        assert(oi != idx);
                        let ni = if oi < idx {
                            oi
                        } else {
                            oi - 1
                        };
                        assert(news[ni].target == t);
                        assert(wq_has(news, t));
                        let j = wq_index(news, t);
                        if j != ni {
                            assert(false);
                        }
                    }
                    assert forall|t: ProcessId| #[trigger] wq_has(news, t) implies wq_has(olds, t) && t != pid by {
                        let ni = wq_index(news, t);
                        assert(news[ni].target == t);
                        if ni < idx {
                            assert(olds[ni].target == t);
                        } else {
                            assert(olds[ni + 1].target == t);
                        }
                    }
                    assert(wq_index(olds, pid) == idx) by {
                        let j = wq_index(olds, pid);
                        if j != idx {
                            assert(false);
                        }
                    }
                }
                entry.waiters
            },
            None => {
                proof {
                    assert(self.wait_queue@ == old(self).wait_queue@);
                }
                Vec::new()
            },
        };
        let ghost ws = old(self).waiters_of(pid);
        proof {
            assert(waiters@ == ws);
            assert(forall|k: int, l: int|
                0 <= k < l < ws.len() ==> (#[trigger] ws[k]) != (#[trigger] ws[l])) by {
                assert(forall|k: int, l: int|
                    0 <= k < l < ws.len() ==> (#[trigger] ws[k]).0 < (#[trigger] ws[l]).0);
            }
        }
        let ghost q0 = self.ready_queue@;
        let ghost wq_mid = self.wait_queue@;
        let mut k: usize = 0;
        while k < waiters.len()
            invariant
                self.wf(),
                waiters@ == ws,
                k <= ws.len(),
                forall|a: int, b: int|
                    0 <= a < b < ws.len() ==> (#[trigger] ws[a]) != (#[trigger] ws[b]),
                ({
                    let (p1, q1) = wake_fold(killed, q0, ws.take(k as int), Option::Some(ret));
                    self.processes@ == p1 && self.ready_queue@ == q1
                }),
                self.wait_queue@ == wq_mid,
                *self == (ProcessManager {
                    processes: self.processes,
                    ready_queue: self.ready_queue,
                    wait_queue: self.wait_queue,
                    ..*old(self)
                }),
            decreases ws.len() - k,
        {
            let w = waiters[k];
            proof {
                lemma_wake_fold_snoc(killed, q0, ws.take(k as int), w, Option::Some(ret));
                assert(ws.take(k as int).push(w) =~= ws.take(k as int + 1));
            }
            self.wake_up(w, Some(ret));
            k = k + 1;
        }
        proof {
            assert(ws.take(ws.len() as int) =~= ws);
            lemma_wake_fold(killed, q0, ws, Option::Some(ret));
            assert(self.status_of(pid) is Dead && self.proc_of(pid).exit_code == Option::Some(ret))
                by {
                if ws.contains(pid) {
                    let j = choose|j: int| 0 <= j < ws.len() && ws[j] == pid;
                    assert(killed[pid.0 - 1].status is Dead);
                }
                assert(!ws.contains(ProcessId((((pid.0 - 1)) + 1) as u16)) ==> self.processes@[pid.0
                    - 1] == killed[pid.0 - 1]);
            }
            assert forall|j: int|
                0 <= j < ws.len() && (#[trigger] ws[j]) != pid && !(old(self).status_of(
                    ws[j],
                ) is Dead) implies self.proc_of(ws[j]).status is Ready && self.proc_of(ws[j]).context.rax == ret as u64 && self.ready_queue@.contains(ws[j]) by {
                assert(old(self).wait_entry_wf(old(self).wait_queue@[old(self).wait_entry_index(
                    pid,
                )]));
                assert(1 <= ws[j].0 <= killed.len());
                assert(killed[ws[j].0 - 1] == old(self).processes@[ws[j].0 - 1]);
                assert(!(killed[ws[j].0 - 1].status is Dead));
                assert(self.processes@[ws[j].0 - 1] == woken_record(
                    killed[ws[j].0 - 1],
                    Option::Some(ret),
                ));
            }
        }
    }
}


/// The ticks counter after one more save; it sticks at the top rather
/// than wrap.
pub open spec fn tick_next(t: u64) -> u64 {
    if t < u64::MAX {
        (t + 1) as u64
    } else {
        t
    }
}

/// The record of the current process after its context is saved: the
/// context stored, one more tick counted, and — if it was running — made
/// ready. A process that blocked or died in the same trap keeps that
/// status.
pub open spec fn saved_record(p: Process, ctx: crate::context::ProcessContext) -> Process {
    Process {
        ticks: tick_next(p.ticks),
        context: ctx,
        status: if p.status is Running {
            ProgramStatus::Ready
        } else {
            p.status
        },
        ..p
    }
}

/// A record handed the processor: running, unless it is dead — the idle
/// fallback can name a dead current process, and death is terminal.
pub open spec fn running_record(p: Process) -> Process {
    if p.status is Dead {
        p
    } else {
        Process { status: ProgramStatus::Running, ..p }
    }
}

/// The scheduler's pick: pop identifiers from the front of the queue until
/// one names a record that is exactly ready — stale entries for processes
/// that died or blocked after being enqueued are discarded — and fall back
/// to the current process when the queue runs out.
pub open spec fn pick_next(procs: Seq<Process>, q: Seq<ProcessId>, cur: ProcessId) -> (
    ProcessId,
    Seq<ProcessId>,
)
    decreases q.len(),
{
    if q.len() == 0 {
        (cur, q)
    } else {
        let p = q[0];
        if 1 <= p.0 <= procs.len() && procs[p.0 - 1].status is Ready {
            (p, q.drop_first())
        } else {
            pick_next(procs, q.drop_first(), cur)
        }
    }
}

impl ProcessManager {
    /// Save the processor's context into the current process's record and
    /// count the tick.
    pub fn save_current(&mut self, context: &ProcessContext)
        requires
            old(self).wf(),
        ensures
            final(self).wf(),
            *final(self) == (ProcessManager { processes: final(self).processes, ..*old(self) }),
            final(self).processes@ == old(self).processes@.update(
                old(self).current.0 - 1,
                saved_record(old(self).proc_of(old(self).current), *context),
            ),
    {
        let i = (self.current.0 - 1) as usize;
        let mut p = self.processes.remove(i);
        p.tick();
        p.save(context);
        self.processes.insert(i, p);
        proof {
            assert(self.processes@ =~= old(self).processes@.update(
                i as int,
                saved_record(old(self).proc_of(old(self).current), *context),
            ));
            assert(forall|j: int|
                0 <= j < self.processes@.len() && j != i as int ==> self.processes@[j] == old(self).processes@[j]);
        }
    }

    /// Pick the next process to run: the first identifier in the ready
    /// queue whose record is exactly ready, or the current process when the
    /// queue is exhausted. The chosen record becomes running and its saved
    /// context is restored into the processor.
    pub fn switch_next(&mut self, context: &mut ProcessContext) -> (r: ProcessId)
        requires
            old(self).wf(),
        ensures
            final(self).wf(),
            ({
                let (next, rest) = pick_next(
                    old(self).processes@,
                    old(self).ready_queue@,
                    old(self).current,
                );
                &&& r == next
                &&& final(self).current == next
                &&& old(self).pid_valid(next)
                &&& final(self).ready_queue@ == rest
                &&& final(self).processes@ == old(self).processes@.update(
                    next.0 - 1,
                    running_record(old(self).proc_of(next)),
                )
                &&& *final(context) == old(self).proc_of(next).context
                &&& *final(self) == (ProcessManager {
                    processes: final(self).processes,
                    ready_queue: final(self).ready_queue,
                    current: next,
                    ..*old(self)
                })
            }),
    {
        let mut next: ProcessId = self.current;
        loop
            invariant_except_break
                pick_next(old(self).processes@, old(self).ready_queue@, old(self).current)
                    == pick_next(self.processes@, self.ready_queue@, self.current),
            invariant
                self.wf(),
                *self == (ProcessManager { ready_queue: self.ready_queue, ..*old(self) }),
            ensures
                ({
                    let (n, rest) = pick_next(
                        old(self).processes@,
                        old(self).ready_queue@,
                        old(self).current,
                    );
                    &&& next == n
                    &&& 1 <= next.0 <= self.processes@.len()
                    &&& self.ready_queue@ == rest
                    &&& *self == (ProcessManager { ready_queue: self.ready_queue, ..*old(self) })
                }),
            decreases self.ready_queue@.len(),
        {
            match self.ready_queue.pop_front() {
                Some(p) => {
                    let ok = {
                        if 1 <= p.0 && (p.0 as usize) <= self.processes.len() {
                            matches!(self.processes[(p.0 - 1) as usize].status, ProgramStatus::Ready)
                        } else {
                            false
                        }
                    };
                    if ok {
                        next = p;
                        break ;
                    }
                },
                None => {
                    next = self.current;
                    break ;
                },
            }
        }
        let i = (next.0 - 1) as usize;
        let mut p = self.processes.remove(i);
        if !matches!(p.status, ProgramStatus::Dead) {
            p.resume();
        }
        p.restore(context);
        self.processes.insert(i, p);
        self.current = next;
        proof {
            assert(self.processes@ =~= old(self).processes@.update(
                i as int,
                running_record(old(self).proc_of(next)),
            ));
            assert(forall|j: int|
                0 <= j < self.processes@.len() && j != i as int ==> self.processes@[j] == old(self).processes@[j]);
        }
        next
    }

    /// A timer tick: save the current process's context, re-enqueue it at
    /// the back when it is still eligible — strict round robin — and hand
    /// the processor to the next ready process.
    pub fn switch(&mut self, context: &mut ProcessContext)
        requires
            old(self).wf(),
        ensures
            final(self).wf(),
            ({
                let cur = old(self).current;
                let saved = old(self).processes@.update(
                    cur.0 - 1,
                    saved_record(old(self).proc_of(cur), *old(context)),
                );
                let enqueued = if saved[cur.0 - 1].status is Ready {
                    old(self).ready_queue@.push(cur)
                } else {
                    old(self).ready_queue@
                };
                let (next, rest) = pick_next(saved, enqueued, cur);
                &&& final(self).current == next
                &&& 1 <= next.0 <= saved.len()
                &&& final(self).ready_queue@ == rest
                &&& final(self).processes@ == saved.update(
                    next.0 - 1,
                    running_record(saved[next.0 - 1]),
                )
                &&& *final(context) == saved[next.0 - 1].context
                &&& *final(self) == (ProcessManager {
                    processes: final(self).processes,
                    ready_queue: final(self).ready_queue,
                    current: next,
                    ..*old(self)
                })
            }),
    {
        self.save_current(context);
        let cur = self.current;
        let i = (cur.0 - 1) as usize;
        if matches!(self.processes[i].status, ProgramStatus::Ready) {
            self.push_ready(cur);
        }
        self.switch_next(context);
    }

    /// Kill the current process.
    pub fn kill_current(&mut self, ret: isize)
        requires
            old(self).wf(),
        ensures
            final(self).wf(),
            old(self).status_of(old(self).current) is Dead ==> *final(self) == *old(self),
            !(old(self).status_of(old(self).current) is Dead) ==> {
                let pid = old(self).current;
                let killed = old(self).processes@.update(
                    pid.0 - 1,
                    (Process {
                        status: ProgramStatus::Dead,
                        exit_code: Option::Some(ret),
                        ..old(self).proc_of(pid)
                    }),
                );
                let (p2, q2) = wake_fold(
                    killed,
                    old(self).ready_queue@,
                    old(self).waiters_of(pid),
                    Option::Some(ret),
                );
                &&& final(self).processes@ == p2
                &&& final(self).ready_queue@ == q2
                &&& final(self).status_of(pid) is Dead
                &&& final(self).proc_of(pid).exit_code == Option::Some(ret)
                &&& !final(self).has_wait_entry(pid)
                &&& *final(self) == (ProcessManager {
                    processes: final(self).processes,
                    ready_queue: final(self).ready_queue,
                    wait_queue: final(self).wait_queue,
                    ..*old(self)
                })
            },
    {
        let cur = self.current;
        self.kill(cur, ret);
    }

    /// The exit syscall: terminate the caller — waking everything that
    /// waited for it — and hand the processor to the next ready process.
    pub fn exit(&mut self, ret: isize, context: &mut ProcessContext)
        requires
            old(self).wf(),
            !(old(self).status_of(old(self).current) is Dead),
        ensures
            final(self).wf(),
            ({
                let pid = old(self).current;
                let killed = old(self).processes@.update(
                    pid.0 - 1,
                    (Process {
                        status: ProgramStatus::Dead,
                        exit_code: Option::Some(ret),
                        ..old(self).proc_of(pid)
                    }),
                );
                let (p2, q2) = wake_fold(
                    killed,
                    old(self).ready_queue@,
                    old(self).waiters_of(pid),
                    Option::Some(ret),
                );
                let (next, rest) = pick_next(p2, q2, pid);
                &&& final(self).current == next
                &&& 1 <= next.0 <= p2.len()
                &&& final(self).ready_queue@ == rest
                &&& final(self).processes@ == p2.update(
                    next.0 - 1,
                    running_record(p2[next.0 - 1]),
                )
                &&& *final(context) == p2[next.0 - 1].context
                &&& final(self).status_of(pid) is Dead
                &&& final(self).proc_of(pid).exit_code == Option::Some(ret)
                &&& final(self).exit_code_spec(pid) == Option::Some(ret)
            }),
    {
        self.kill_current(ret);
        let ghost mid = *self;
        self.switch_next(context);
        proof {
            let pid = old(self).current;
            let next = self.current;
            if next == pid {
                assert(mid.proc_of(pid).status is Dead);
                assert(running_record(mid.proc_of(pid)) == mid.proc_of(pid));
            }
            assert(self.proc_of(pid) == mid.proc_of(pid));
        }
    }
}


/// A waiter queue with `c` added in identifier order; adding an already
/// registered waiter changes nothing.
pub open spec fn insert_waiter(ws: Seq<ProcessId>, c: ProcessId) -> Seq<ProcessId>
    decreases ws.len(),
{
    if ws.len() == 0 {
        seq![c]
    } else if c.0 < ws[0].0 {
        seq![c] + ws
    } else if c.0 == ws[0].0 {
        ws
    } else {
        seq![ws[0]] + insert_waiter(ws.drop_first(), c)
    }
}

/// Inserting a waiter keeps the queue strictly ascending, keeps exactly
/// the old members plus the new one, and registers the new one.
pub proof fn lemma_insert_waiter(ws: Seq<ProcessId>, c: ProcessId)
    requires
        forall|k: int, l: int|
            0 <= k < l < ws.len() ==> (#[trigger] ws[k]).0 < (#[trigger] ws[l]).0,
    ensures
        ({
            let r = insert_waiter(ws, c);
            &&& forall|k: int, l: int|
                0 <= k < l < r.len() ==> (#[trigger] r[k]).0 < (#[trigger] r[l]).0
            &&& r.contains(c)
            &&& forall|x: ProcessId| #[trigger] r.contains(x) == (ws.contains(x) || x == c)
            &&& ws.len() <= r.len() <= ws.len() + 1
        }),
    decreases ws.len(),
{
    let r = insert_waiter(ws, c);
    if ws.len() == 0 {
        assert(r == seq![c]);
        assert(r[0] == c);
        assert forall|x: ProcessId| #[trigger] r.contains(x) implies (ws.contains(x) || x == c) by {
            let k = choose|k: int| 0 <= k < r.len() && r[k] == x;
        }
    } else if c.0 < ws[0].0 {
        assert(r == seq![c] + ws);
        assert(r[0] == c);
        assert forall|k: int, l: int|
            0 <= k < l < r.len() implies (#[trigger] r[k]).0 < (#[trigger] r[l]).0 by {
            if k == 0 {
                assert(r[l] == ws[l - 1]);
                if l - 1 > 0 {
                    assert(ws[0].0 < ws[l - 1].0);
                }
            } else {
                assert(r[k] == ws[k - 1] && r[l] == ws[l - 1]);
            }
        }
        assert forall|x: ProcessId| #[trigger] r.contains(x) implies (ws.contains(x) || x == c) by {
            let k = choose|k: int| 0 <= k < r.len() && r[k] == x;
            if k > 0 {
                assert(ws[k - 1] == x);
            }
        }
        assert forall|x: ProcessId| ws.contains(x) || x == c implies #[trigger] r.contains(x) by {
            if ws.contains(x) {
                let k = choose|k: int| 0 <= k < ws.len() && ws[k] == x;
                assert(r[k + 1] == x);
            } else {
                assert(r[0] == x);
            }
        }
    } else if c.0 == ws[0].0 {
        assert(r == ws);
        assert(ws[0] == c);
    } else {
        let tail = ws.drop_first();
        lemma_insert_waiter(tail, c);
        let rt = insert_waiter(tail, c);
        assert(r == seq![ws[0]] + rt);
        assert forall|k: int, l: int|
            0 <= k < l < r.len() implies (#[trigger] r[k]).0 < (#[trigger] r[l]).0 by {
            if k == 0 {
                assert(r[l] == rt[l - 1]);
                assert(rt.contains(rt[l - 1]));
                assert(tail.contains(rt[l - 1]) || rt[l - 1] == c);
                if tail.contains(rt[l - 1]) {
                    let m = choose|m: int| 0 <= m < tail.len() && tail[m] == rt[l - 1];
                    assert(ws[m + 1] == rt[l - 1]);
                    assert(ws[0].0 < ws[m + 1].0);
                }
            } else {
                assert(r[k] == rt[k - 1] && r[l] == rt[l - 1]);
            }
        }
        assert(r.contains(c)) by {
            let m = choose|m: int| 0 <= m < rt.len() && rt[m] == c;
            assert(r[m + 1] == c);
        }
        assert forall|x: ProcessId| #[trigger] r.contains(x) implies (ws.contains(x) || x == c) by {
            let k = choose|k: int| 0 <= k < r.len() && r[k] == x;
            if k == 0 {
                assert(ws[0] == x);
            } else {
                assert(rt[k - 1] == x);
                assert(rt.contains(x));
                if tail.contains(x) {
                    let m = choose|m: int| 0 <= m < tail.len() && tail[m] == x;
                    assert(ws[m + 1] == x);
                }
            }
        }
        assert forall|x: ProcessId| ws.contains(x) || x == c implies #[trigger] r.contains(x) by {
            if ws.contains(x) {
                let k = choose|k: int| 0 <= k < ws.len() && ws[k] == x;
                if k == 0 {
                    assert(r[0] == x);
                } else {
                    assert(tail[k - 1] == x);
                    assert(tail.contains(x));
                    assert(rt.contains(x));
                    let m = choose|m: int| 0 <= m < rt.len() && rt[m] == x;
                    assert(r[m + 1] == x);
                }
            } else {
                let m = choose|m: int| 0 <= m < rt.len() && rt[m] == c;
                assert(r[m + 1] == x);
            }
        }
    }
}

/// The record of a process that blocked in a trap: context saved, tick
/// counted, status blocked.
pub open spec fn blocked_record(p: Process, ctx: crate::context::ProcessContext) -> Process {
    Process { ticks: tick_next(p.ticks), context: ctx, status: ProgramStatus::Blocked, ..p }
}

impl ProcessManager {
    /// Register the current process as a waiter for `target`'s exit.
    fn register_waiter(&mut self, target: ProcessId)
        requires
            old(self).wf(),
            old(self).pid_valid(target),
        ensures
            final(self).wf(),
            *final(self) == (ProcessManager { wait_queue: final(self).wait_queue, ..*old(self) }),
            wq_has(final(self).wait_queue@, target),
            wq_waiters(final(self).wait_queue@, target) == insert_waiter(
                wq_waiters(old(self).wait_queue@, target),
                old(self).current,
            ),
            forall|t: ProcessId|
                #[trigger] wq_has(final(self).wait_queue@, t) == (wq_has(old(self).wait_queue@, t)
                    || t == target),
            forall|t: ProcessId|
                (#[trigger] wq_has(old(self).wait_queue@, t)) && t != target ==> wq_waiters(
                    final(self).wait_queue@,
                    t,
                ) == wq_waiters(old(self).wait_queue@, t),
    {
        let cur = self.current;
        proof {
            lemma_insert_waiter(old(self).waiters_of(target), cur);
        }
        match self.find_wait_entry(target) {
            Some(i) => {
                let mut entry = self.wait_queue.remove(i);
                let mut idx: usize = 0;
                let ghost ws = entry.waiters@;
                while idx < entry.waiters.len() && entry.waiters[idx].0 < cur.0
                    invariant
                        entry.waiters@ == ws,
                        idx <= ws.len(),
                        forall|j: int| 0 <= j < idx ==> (#[trigger] ws[j]).0 < cur.0,
                    decreases ws.len() - idx,
                {
                    idx = idx + 1;
                }
                if !(idx < entry.waiters.len() && entry.waiters[idx].0 == cur.0) {
                    entry.waiters.insert(idx, cur);
                    proof {
                        lemma_insert_waiter_at(ws, cur, idx as int);
                        assert(entry.waiters@ =~= insert_waiter(ws, cur));
                    }
                } else {
                    proof {
                        lemma_insert_waiter_at(ws, cur, idx as int);
                    }
                }
                self.wait_queue.insert(i, entry);
                proof {
                    let olds = old(self).wait_queue@;
                    let news = self.wait_queue@;
                    let idxe = i as int;
                    assert(news.len() == olds.len());
                    assert(forall|j: int|
                        0 <= j < olds.len() && j != idxe ==> news[j] == olds[j]);
                    assert(news[idxe].target == target);
                    assert(news[idxe].waiters@ == insert_waiter(
                        wq_waiters(olds, target),
                        cur,
                    )) by {
                        assert(wq_index(olds, target) == idxe) by {
                            let j = wq_index(olds, target);
                            if j != idxe {
                                assert(false);
                            }
                        }
                    }
                    assert forall|t: ProcessId| wq_has(olds, t) && t != target implies #[trigger] wq_has(news, t) && wq_waiters(news, t) == wq_waiters(olds, t) by {
                        let oi = wq_index(olds, t);
                        assert(olds[oi].target == t);
                        assert(oi != idxe);
                        assert(news[oi].target == t);
                        assert(wq_has(news, t));
                        let j = wq_index(news, t);
                        if j != oi {
                            assert(false);
                        }
                    }
                    assert forall|t: ProcessId| #[trigger] wq_has(news, t) implies wq_has(olds, t)
                        || t == target by {
                        let ni = wq_index(news, t);
                        if ni != idxe {
                            assert(olds[ni].target == t);
                        }
                    }
                    assert(wq_has(news, target) && wq_index(news, target) == idxe) by {
                        let j = wq_index(news, target);
                        if j != idxe {
                            assert(false);
                        }
                    }
                    assert(self.wf()) by {
                        assert forall|j: int|
                            0 <= j < news.len() implies self.wait_entry_wf(#[trigger] news[j]) by {
                            if j != idxe {
                                assert(news[j] == olds[j]);
                                assert(old(self).wait_entry_wf(olds[j]));
                            }
                        }
                    }
                }
            },
            None => {
                let mut waiters: Vec<ProcessId> = Vec::new();
                waiters.push(cur);
                self.wait_queue.push(WaitEntry { target, waiters });
                proof {
                    let olds = old(self).wait_queue@;
                    let news = self.wait_queue@;
                    let idxe = olds.len() as int;
                    assert(news[idxe].target == target);
                    assert(news[idxe].waiters@ =~= insert_waiter(Seq::<ProcessId>::empty(), cur));
                    assert forall|t: ProcessId| wq_has(olds, t) implies #[trigger] wq_has(news, t)
                        && wq_waiters(news, t) == wq_waiters(olds, t) by {
                        let oi = wq_index(olds, t);
                        assert(olds[oi].target == t);
                        assert(news[oi].target == t);
                        let j = wq_index(news, t);
                        if j != oi {
                            assert(news[j].target == t);
                            if j != idxe {
                                assert(olds[j].target == t);
                            }
                            assert(false);
                        }
                    }
                    assert forall|t: ProcessId| #[trigger] wq_has(news, t) implies wq_has(olds, t)
                        || t == target by {
                        let ni = wq_index(news, t);
                        if ni != idxe {
                            assert(olds[ni].target == t);
                        }
                    }
                    assert(wq_has(news, target) && wq_index(news, target) == idxe) by {
                        let j = wq_index(news, target);
                        if j != idxe {
                            assert(olds[j].target == target);
                            assert(false);
                        }
                    }
                    assert(self.wf()) by {
                        assert forall|j: int|
                            0 <= j < news.len() implies self.wait_entry_wf(#[trigger] news[j]) by {
                            if j != idxe {
                                assert(news[j] == olds[j]);
                                assert(old(self).wait_entry_wf(olds[j]));
                            }
                        }
                    }
                }
            },
        }
    }

    /// The wait-for-exit syscall. When the target has already exited, its
    /// exit code is returned at once in the caller's return register —
    /// repeatedly, if asked again — and nothing blocks. When the target is
    /// alive, the caller is registered against it, blocked, and the
    /// processor goes to the next ready process; the caller resumes only
    /// when the target's death wakes it, return register already set. An
    /// unknown target changes nothing: a caller error, never fatal.
    pub fn wait_pid(&mut self, pid: ProcessId, context: &mut ProcessContext)
        requires
            old(self).wf(),
            !(old(self).status_of(old(self).current) is Dead),
        ensures
            final(self).wf(),
            // fast path: the exit code is already on record
            old(self).exit_code_spec(pid) matches Option::Some(code) ==> *final(self) == *old(self)
                && *final(context) == (ProcessContext { rax: code as u64, ..*old(context) }),
            // unknown target: a caller error, nothing happens
            !old(self).pid_valid(pid) ==> *final(self) == *old(self) && *final(context) == *old(
                context,
            ),
            // blocking path
            (old(self).pid_valid(pid) && old(self).proc_of(pid).exit_code is None) ==> {
                let c = old(self).current;
                let blocked = old(self).processes@.update(
                    c.0 - 1,
                    blocked_record(old(self).proc_of(c), *old(context)),
                );
                let (next, rest) = pick_next(blocked, old(self).ready_queue@, c);
                &&& final(self).has_wait_entry(pid)
                &&& final(self).waiters_of(pid) == insert_waiter(old(self).waiters_of(pid), c)
                &&& (forall|t: ProcessId|
                    #[trigger] final(self).has_wait_entry(t) == (old(self).has_wait_entry(t) || t
                        == pid))
                &&& (forall|t: ProcessId|
                    (#[trigger] old(self).has_wait_entry(t)) && t != pid ==> final(self).waiters_of(t) == old(self).waiters_of(t))
                &&& final(self).current == next
                &&& 1 <= next.0 <= blocked.len()
                &&& final(self).ready_queue@ == rest
                &&& final(self).processes@ == blocked.update(
                    next.0 - 1,
                    running_record(blocked[next.0 - 1]),
                )
                &&& *final(context) == blocked[next.0 - 1].context
                &&& *final(self) == (ProcessManager {
                    processes: final(self).processes,
                    ready_queue: final(self).ready_queue,
                    wait_queue: final(self).wait_queue,
                    current: next,
                    ..*old(self)
                })
            },
    {
        match self.get_exit_code(pid) {
            Some(ret) => {
                context.set_rax(#[verifier::truncate] (ret as u64));
            },
            None => {
                if 1 <= pid.0 && (pid.0 as usize) <= self.processes.len() {
                    self.register_waiter(pid);
                    self.save_current(context);
                    let cur = self.current;
                    self.block(cur);
                    proof {
                        let c = old(self).current;
                        assert(self.processes@ =~= old(self).processes@.update(
                            c.0 - 1,
                            blocked_record(old(self).proc_of(c), *old(context)),
                        ));
                    }
                    self.switch_next(context);
                }
            },
        }
    }
}

/// Scanning past all smaller identifiers finds the ordered insertion
/// point: inserting there — or finding the waiter already present —
/// matches the recursive insertion.
proof fn lemma_insert_waiter_at(ws: Seq<ProcessId>, c: ProcessId, idx: int)
    requires
        forall|k: int, l: int|
            0 <= k < l < ws.len() ==> (#[trigger] ws[k]).0 < (#[trigger] ws[l]).0,
        0 <= idx <= ws.len(),
        forall|j: int| 0 <= j < idx ==> (#[trigger] ws[j]).0 < c.0,
        idx < ws.len() ==> ws[idx].0 >= c.0,
    ensures
        (idx < ws.len() && ws[idx].0 == c.0) ==> insert_waiter(ws, c) == ws,
        !(idx < ws.len() && ws[idx].0 == c.0) ==> insert_waiter(ws, c) == ws.insert(idx, c),
    decreases idx,
{
    if ws.len() == 0 {
        assert(ws.insert(0, c) =~= seq![c]);
    } else if idx == 0 {
        if ws[0].0 == c.0 {
        } else {
            assert(c.0 < ws[0].0);
            assert(ws.insert(0, c) =~= seq![c] + ws);
        }
    } else {
        assert(ws[0].0 < c.0);
        let tail = ws.drop_first();
        lemma_insert_waiter_at(tail, c, idx - 1);
        if idx < ws.len() && ws[idx].0 == c.0 {
            assert(tail[idx - 1].0 == c.0);
            assert(seq![ws[0]] + tail =~= ws);
        } else {
            assert(insert_waiter(tail, c) == tail.insert(idx - 1, c));
            assert(seq![ws[0]] + tail.insert(idx - 1, c) =~= ws.insert(idx, c));
        }
    }
}


/// The index of the first application named `name`, or a negative number
/// when none is.
pub open spec fn app_find(apps: Seq<AppEntry>, name: Seq<char>) -> int
    decreases apps.len(),
{
    if apps.len() == 0 {
        -1
    } else if apps[0].name@ == name {
        0
    } else {
        let r = app_find(apps.drop_first(), name);
        if r < 0 {
            -1
        } else {
            r + 1
        }
    }
}

/// What the first-match search yields: a hit names a matching entry with
/// none before it; a miss means no entry matches.
pub proof fn lemma_app_find(apps: Seq<AppEntry>, name: Seq<char>)
    ensures
        app_find(apps, name) >= 0 ==> {
            let r = app_find(apps, name);
            &&& r < apps.len()
            &&& apps[r].name@ == name
            &&& forall|j: int| 0 <= j < r ==> (#[trigger] apps[j]).name@ != name
        },
        app_find(apps, name) < 0 ==> forall|j: int|
            0 <= j < apps.len() ==> (#[trigger] apps[j]).name@ != name,
    decreases apps.len(),
{
    if apps.len() == 0 {
    } else if apps[0].name@ == name {
    } else {
        lemma_app_find(apps.drop_first(), name);
        let r = app_find(apps.drop_first(), name);
        if r >= 0 {
            assert(apps.drop_first()[r] == apps[r + 1]);
            assert(forall|j: int|
                1 <= j < r + 1 ==> (#[trigger] apps[j]) == apps.drop_first()[j - 1]);
        } else {
            assert(forall|j: int|
                1 <= j < apps.len() ==> (#[trigger] apps[j]) == apps.drop_first()[j - 1]);
        }
    }
}

/// The entry context of a spawned process for entry point `entry` and
/// process identifier `pid`: execution starts at the entry with the stack
/// pointer just below the top of the process's stack window.
pub open spec fn spawn_context(entry: u64, pid: ProcessId) -> crate::context::ProcessContext {
    crate::context::ProcessContext {
        rax: 0,
        instruction_pointer: entry,
        stack_pointer: (crate::stack::STACK_INIT_TOP - (pid.0 - 1)
            * crate::stack::STACK_MAX_SIZE) as u64,
    }
}

impl ProcessManager {
    /// Whether the table can take one more record: one more identifier must
    /// still have a stack window under the fixed formula.
    pub open spec fn can_grow(&self) -> bool {
        self.processes@.len() + 1 < STACK_WINDOWS
    }

    /// Build and register a ready record for a fresh process, in a fresh
    /// address space, with the given name, entry point and shared data.
    /// Returns the new identifier, `None` when the table is full.
    fn create_process(&mut self, name: String, entry: u64, parent: Option<ProcessId>, data:
        Option<ProcessData>) -> (r: Option<ProcessId>)
        requires
            old(self).wf(),
            match data {
                Option::Some(d) => d.wf(),
                Option::None => true,
            },
        ensures
            final(self).wf(),
            !old(self).can_grow() ==> r is None && *final(self) == *old(self),
            old(self).can_grow() ==> {
                let pid = ProcessId((old(self).processes@.len() + 1) as u16);
                &&& r == Option::Some(pid)
                &&& final(self).processes@.len() == old(self).processes@.len() + 1
                &&& final(self).processes@ == old(self).processes@.push(
                    final(self).proc_of(pid),
                )
                &&& ({
                    let p = final(self).proc_of(pid);
                    &&& p.pid == pid
                    &&& p.name == name
                    &&& p.parent == parent
                    &&& p.status is Ready
                    &&& p.ticks == 0
                    &&& p.exit_code is None
                    &&& p.data_id == old(self).datas@.len()
                    &&& p.vm matches Option::Some(vm) && vm.page_table.id == old(self).next_table_id
                        && vm.stack.usage == crate::stack::STACK_DEF_PAGE
                    &&& p.context == spawn_context(entry, pid)
                })
                &&& final(self).datas@.len() == old(self).datas@.len() + 1
                &&& (match data {
                    Option::Some(d) => final(self).datas@.last() == d,
                    Option::None => final(self).datas@.last().env@.len() == 0 && final(self).datas@.last().semaphores.sems@.len() == 0,
                })
                &&& final(self).datas@ == old(self).datas@.push(final(self).datas@.last())
                &&& final(self).ready_queue@ == old(self).ready_queue@.push(pid)
                &&& final(self).wait_queue == old(self).wait_queue
                &&& final(self).current == old(self).current
                &&& final(self).app_list == old(self).app_list
                &&& final(self).next_table_id == old(self).next_table_id + 1
            },
    {
        proof {
            vstd::arithmetic::div_mod::lemma_fundamental_div_mod_converse(
                crate::stack::STACK_MAX as int,
                crate::stack::STACK_MAX_SIZE as int,
                0x4000,
                0,
            );
            assert(STACK_WINDOWS == 0x4000);
        }
        if self.processes.len() + 1 >= 0x4000 {
            return None;
        }
        let pid = ProcessId((self.processes.len() + 1) as u16);
        let page_table = PageTableContext { id: self.next_table_id };
        self.next_table_id = self.next_table_id + 1;
        let mut vm = ProcessVm::new(page_table);
        let stack_top = vm.init_proc_stack(pid);
        let d = match data {
            Some(d) => d,
            None => ProcessData::new(),
        };
        let data_id = self.datas.len();
        self.datas.push(d);
        let record = Process {
            pid,
            name,
            parent,
            status: ProgramStatus::Ready,
            ticks: 0,
            context: ProcessContext { rax: 0, instruction_pointer: entry, stack_pointer: stack_top },
            exit_code: None,
            vm: Some(vm),
            data_id,
        };
        self.processes.push(record);
        self.ready_queue.push_back(pid);
        Some(pid)
    }

    /// The spawn syscall: look `name` up in the application table and start
    /// a new process from that image — fresh address space, the fixed
    /// stack window for its identifier, entry context installed, ready and
    /// enqueued, the caller as parent. Returns the new identifier; `None`,
    /// with nothing registered, when no application carries the name or
    /// the table is full.
    pub fn spawn(&mut self, name: &str) -> (r: Option<ProcessId>)
        requires
            old(self).wf(),
        ensures
            final(self).wf(),
            app_find(old(self).app_list@, name@) < 0 ==> r is None && *final(self) == *old(self),
            !old(self).can_grow() ==> r is None && *final(self) == *old(self),
            app_find(old(self).app_list@, name@) >= 0 && old(self).can_grow() ==> {
                let app = old(self).app_list@[app_find(old(self).app_list@, name@)];
                let pid = ProcessId((old(self).processes@.len() + 1) as u16);
                &&& r == Option::Some(pid)
                &&& final(self).processes@.len() == old(self).processes@.len() + 1
                &&& final(self).processes@ == old(self).processes@.push(final(self).proc_of(pid))
                &&& ({
                    let p = final(self).proc_of(pid);
                    &&& p.pid == pid
                    &&& p.name@ == name@
                    &&& p.parent == Option::Some(old(self).current)
                    &&& p.status is Ready
                    &&& p.ticks == 0
                    &&& p.exit_code is None
                    &&& p.data_id == old(self).datas@.len()
                    &&& p.vm matches Option::Some(vm) && vm.page_table.id == old(self).next_table_id
                        && vm.stack.usage == crate::stack::STACK_DEF_PAGE
                    &&& p.context == spawn_context(app.entry, pid)
                })
                &&& final(self).ready_queue@ == old(self).ready_queue@.push(pid)
                &&& final(self).wait_queue == old(self).wait_queue
                &&& final(self).current == old(self).current
                &&& final(self).datas@.len() == old(self).datas@.len() + 1
            },
    {
        let name_string: String = name.to_owned();
        let mut i: usize = 0;
        let mut found: Option<usize> = None;
        while i < self.app_list.len() && found.is_none()
            invariant
                self.wf(),
                name_string@ == name@,
                i <= self.app_list@.len(),
                match found {
                    Option::Some(f) => f == app_find(self.app_list@, name@) && f
                        < self.app_list@.len(),
                    Option::None => forall|j: int|
                        0 <= j < i ==> (#[trigger] self.app_list@[j]).name@ != name@,
                },
            decreases self.app_list@.len() - i + (if found is None {
                1int
            } else {
                0int
            }),
        {
            if self.app_list[i].name == name_string {
                proof {
                    lemma_app_find(self.app_list@, name@);
                    let f = app_find(self.app_list@, name@);
                    assert(f >= 0) by {
                        if f < 0 {
                            assert(self.app_list@[i as int].name@ != name@);
                        }
                    }
                    assert(f == i as int) by {
                        if f < i as int {
                            assert(self.app_list@[f].name@ != name@);
                        }
                        if f > i as int {
                            assert(self.app_list@[i as int].name@ != name@);
                        }
                    }
                }
                found = Some(i);
            } else {
                i = i + 1;
            }
        }
        proof {
            lemma_app_find(self.app_list@, name@);
        }
        match found {
            Some(f) => {
                let entry = self.app_list[f].entry;
                let cur = self.current;
                self.create_process(name_string, entry, Some(cur), None)
            },
            None => None,
        }
    }

    /// Start a kernel-side thread at `entry`, optionally sharing the given
    /// data instance, with the kernel process as parent. Returns the new
    /// identifier; `None`, with nothing registered, when the table is
    /// full.
    pub fn spawn_kernel_thread(&mut self, entry: u64, name: String, proc_data: Option<
        ProcessData,
    >) -> (r: Option<ProcessId>)
        requires
            old(self).wf(),
            match proc_data {
                Option::Some(d) => d.wf(),
                Option::None => true,
            },
        ensures
            final(self).wf(),
            !old(self).can_grow() ==> r is None && *final(self) == *old(self),
            old(self).can_grow() ==> {
                let pid = ProcessId((old(self).processes@.len() + 1) as u16);
                &&& r == Option::Some(pid)
                &&& final(self).processes@.len() == old(self).processes@.len() + 1
                &&& final(self).processes@ == old(self).processes@.push(final(self).proc_of(pid))
                &&& ({
                    let p = final(self).proc_of(pid);
                    &&& p.pid == pid
                    &&& p.name == name
                    &&& p.parent == Option::Some(ProcessId(crate::KERNEL_PID))
                    &&& p.status is Ready
                    &&& p.exit_code is None
                    &&& p.context == spawn_context(entry, pid)
                })
                &&& final(self).ready_queue@ == old(self).ready_queue@.push(pid)
                &&& final(self).wait_queue == old(self).wait_queue
                &&& final(self).current == old(self).current
                &&& final(self).app_list == old(self).app_list
                &&& final(self).datas@.len() == old(self).datas@.len() + 1
            },
    {
        self.create_process(name, entry, Some(ProcessId(crate::KERNEL_PID)), proc_data)
    }
}


/// Whether `child`'s stack window collides with no stack of a record in
/// `procs` that shares `child`'s address space.
pub open spec fn window_fresh(procs: Seq<Process>, child: Process) -> bool {
    forall|q: int|
        0 <= q < procs.len() && (#[trigger] procs[q]).vm->0.page_table == child.vm->0.page_table
            ==> crate::stack::window_of(
            (child.vm->0.stack.start * crate::stack::PAGE_SIZE) as u64,
        ) != crate::stack::window_of(
            (procs[q].vm->0.stack.start * crate::stack::PAGE_SIZE) as u64,
        )
}

/// Window freshness is unaffected by replacing a record with one whose
/// virtual memory is unchanged.
pub proof fn lemma_window_fresh_unupdate(procs: Seq<Process>, i: int, p2: Process, child: Process)
    requires
        0 <= i < procs.len(),
        p2.vm == procs[i].vm,
        window_fresh(procs.update(i, p2), child),
    ensures
        window_fresh(procs, child),
{
    let upd = procs.update(i, p2);
    assert forall|q: int|
        0 <= q < procs.len() && (#[trigger] procs[q]).vm->0.page_table
            == child.vm->0.page_table implies crate::stack::window_of(
        (child.vm->0.stack.start * crate::stack::PAGE_SIZE) as u64,
    ) != crate::stack::window_of(
        (procs[q].vm->0.stack.start * crate::stack::PAGE_SIZE) as u64,
    ) by {
        if q == i {
            assert(upd[q] == p2);
        } else {
            assert(upd[q] == procs[q]);
        }
    }
}

impl ProcessManager {
    /// The window bases of every stack that lives in address space
    /// `table_id`.
    fn occupied_windows(&self, table_id: u64) -> (r: Vec<u64>)
        requires
            self.wf(),
        ensures
            forall|q: int|
                0 <= q < self.processes@.len() && (#[trigger] self.processes@[q]).vm->0.page_table.id
                    == table_id ==> r@.contains(
                    ((crate::stack::window_of(
                        (self.processes@[q].vm->0.stack.start * crate::stack::PAGE_SIZE) as u64,
                    ) * crate::stack::STACK_MAX_SIZE)) as u64,
                ),
    {
        let mut occupied: Vec<u64> = Vec::new();
        let mut j: usize = 0;
        while j < self.processes.len()
            invariant
                self.wf(),
                j <= self.processes@.len(),
                forall|q: int|
                    0 <= q < j && (#[trigger] self.processes@[q]).vm->0.page_table.id == table_id
                        ==> occupied@.contains(
                        ((crate::stack::window_of(
                            (self.processes@[q].vm->0.stack.start * crate::stack::PAGE_SIZE) as u64,
                        ) * crate::stack::STACK_MAX_SIZE)) as u64,
                    ),
            decreases self.processes@.len() - j,
        {
            let ghost occ_before = occupied@;
            match &self.processes[j].vm {
                Some(vm) => {
                    if vm.page_table.id == table_id {
                        let bot: u64 = vm.stack.stack_bot();
                        let base: u64 = (bot / crate::stack::STACK_MAX_SIZE)
                            * crate::stack::STACK_MAX_SIZE;
                        proof {
                            vstd::arithmetic::div_mod::lemma_fundamental_div_mod(
                                bot as int,
                                crate::stack::STACK_MAX_SIZE as int,
                            );
                            vstd::arithmetic::div_mod::lemma_mod_bound(
                                bot as int,
                                crate::stack::STACK_MAX_SIZE as int,
                            );
                        }
                        occupied.push(base);
                        proof {
                            assert(occupied@[occupied@.len() - 1] == base);
                            assert(forall|x: u64|
                                occ_before.contains(x) ==> #[trigger] occupied@.contains(x)) by {
                                assert forall|x: u64|
                                    occ_before.contains(x) implies #[trigger] occupied@.contains(
                                    x,
                                ) by {
                                    let k = choose|k: int|
                                        0 <= k < occ_before.len() && occ_before[k] == x;
                                    assert(occupied@[k] == x);
                                }
                            }
                        }
                    }
                },
                None => {},
            }
            j = j + 1;
        }
        occupied
    }

    /// Duplicate the current process: a new record in the same address
    /// space, its stack a byte-for-byte copy placed in a free window below
    /// the parent's, its context the parent's saved one with a zero
    /// return value, sharing the parent's data instance. The parent's
    /// saved return value becomes the child's identifier. Returns `None`,
    /// changing nothing, when the table is full or no stack window is
    /// free.
    fn fork_child(&mut self) -> (r: Option<ProcessId>)
        requires
            old(self).wf(),
        ensures
            final(self).wf(),
            !old(self).can_grow() ==> r is None,
            r is None ==> *final(self) == *old(self),
            r is Some ==> ({
                let c = old(self).current;
                let pid = ProcessId((old(self).processes@.len() + 1) as u16);
                let parent = old(self).proc_of(c);
                let parent2 = Process {
                    context: (crate::context::ProcessContext {
                        rax: pid.0 as u64,
                        ..parent.context
                    }),
                    ..parent
                };
                let child = final(self).processes@.last();
                &&& r == Option::Some(pid)
                &&& final(self).processes@ == old(self).processes@.update(
                    c.0 - 1,
                    parent2,
                ).push(child)
                &&& final(self).ready_queue@ == old(self).ready_queue@.push(pid)
                &&& *final(self) == (ProcessManager {
                    processes: final(self).processes,
                    ready_queue: final(self).ready_queue,
                    ..*old(self)
                })
                &&& child.pid == pid
                &&& child.name == parent.name
                &&& child.parent == Option::Some(c)
                &&& child.status is Ready
                &&& child.ticks == 0
                &&& child.exit_code is None
                &&& child.data_id == parent.data_id
                &&& child.vm matches Option::Some(cvm) && parent.vm matches Option::Some(pvm) && {
                    let shift = (pvm.stack.start - cvm.stack.start) * crate::stack::PAGE_SIZE;
                    &&& cvm.page_table == pvm.page_table
                    &&& cvm.stack.usage == pvm.stack.usage
                    &&& cvm.stack.mem@ == pvm.stack.mem@
                    &&& cvm.stack.start < pvm.stack.start
                    &&& child.context.rax == 0
                    &&& child.context.instruction_pointer == parent.context.instruction_pointer
                    &&& child.context.stack_pointer == (if parent.context.stack_pointer >= shift {
                        parent.context.stack_pointer - shift
                    } else {
                        parent.context.stack_pointer as int
                    })
                    &&& window_fresh(old(self).processes@, child)
                }
            }),
    {
        proof {
            vstd::arithmetic::div_mod::lemma_fundamental_div_mod_converse(
                crate::stack::STACK_MAX as int,
                crate::stack::STACK_MAX_SIZE as int,
                0x4000,
                0,
            );
            assert(STACK_WINDOWS == 0x4000);
        }
        if self.processes.len() + 1 >= 0x4000 {
            return None;
        }
        let cur = self.current;
        let ci = (cur.0 - 1) as usize;
        let table_id: u64 = match &self.processes[ci].vm {
            Some(vm) => vm.page_table.id,
            None => {
                return None;
            },
        };
        if match &self.processes[ci].vm {
            Some(vm) => vm.stack.usage == 0,
            None => true,
        } {
            return None;
        }
        let occupied = self.occupied_windows(table_id);
        let child_pid = ProcessId((self.processes.len() + 1) as u16);
        let offset: u64 = (child_pid.0 - cur.0) as u64;
        let child_vm: Option<ProcessVm> = match &self.processes[ci].vm {
            Some(vm) => vm.fork(offset, &occupied),
            None => None,
        };
        let cvm = match child_vm {
            Some(cvm) => cvm,
            None => {
                return None;
            },
        };
        let parent_start: u64 = match &self.processes[ci].vm {
            Some(vm) => vm.stack.start,
            None => 0,
        };
        let shift: u64 = (parent_start - cvm.stack.start) * crate::stack::PAGE_SIZE;
        let prsp: u64 = self.processes[ci].context.stack_pointer;
        let crsp: u64 = if prsp >= shift {
            prsp - shift
        } else {
            prsp
        };
        let child = Process {
            pid: child_pid,
            name: self.processes[ci].name.clone(),
            parent: Some(cur),
            status: ProgramStatus::Ready,
            ticks: 0,
            context: ProcessContext {
                rax: 0,
                instruction_pointer: self.processes[ci].context.instruction_pointer,
                stack_pointer: crsp,
            },
            exit_code: None,
            vm: Some(cvm),
            data_id: self.processes[ci].data_id,
        };
        let mut pp = self.processes.remove(ci);
        pp.set_rax(child_pid.0 as u64);
        self.processes.insert(ci, pp);
        proof {
            assert(self.processes@ =~= old(self).processes@.update(
                ci as int,
                (Process {
                    context: (crate::context::ProcessContext {
                        rax: child_pid.0 as u64,
                        ..old(self).proc_of(cur).context
                    }),
                    ..old(self).proc_of(cur)
                }),
            ));
        }
        self.processes.push(child);
        self.ready_queue.push_back(child_pid);
        proof {
            assert(forall|j: int|
                0 <= j < old(self).processes@.len() && j != ci as int ==> self.processes@[j] == old(self).processes@[j]);
            assert forall|q: int|
                0 <= q < old(self).processes@.len() && (#[trigger] old(self).processes@[q]).vm->0.page_table
                    == self.processes@.last().vm->0.page_table implies crate::stack::window_of(
                (self.processes@.last().vm->0.stack.start * crate::stack::PAGE_SIZE) as u64,
            ) != crate::stack::window_of(
                (old(self).processes@[q].vm->0.stack.start * crate::stack::PAGE_SIZE) as u64,
            ) by {
                let qbase = ((crate::stack::window_of(
                    (old(self).processes@[q].vm->0.stack.start * crate::stack::PAGE_SIZE) as u64,
                ) * crate::stack::STACK_MAX_SIZE)) as u64;
                assert(occupied@.contains(qbase));
            }
            assert(window_fresh(old(self).processes@, self.processes@.last()));
        }
        Some(child_pid)
    }

    /// The fork syscall: save the caller, duplicate it, re-enqueue first
    /// the child and then the parent, and let the scheduler decide who
    /// runs next. In the child's context the return value is zero; in the
    /// parent's it is the child's identifier. When no child can be made —
    /// the table is full or no stack window is free — the caller is saved
    /// and rescheduled unchanged.
    pub fn fork(&mut self, context: &mut ProcessContext) -> (r: Option<ProcessId>)
        requires
            old(self).wf(),
        ensures
            final(self).wf(),
            !old(self).can_grow() ==> r is None,
            fork_rel(*old(self), *final(self), *old(context), *final(context), r),
    {
        self.save_current(context);
        let cur = self.current;
        let r = self.fork_child();
        proof {
            if r is Some {
                lemma_window_fresh_unupdate(
                    old(self).processes@,
                    cur.0 - 1,
                    saved_record(old(self).proc_of(cur), *old(context)),
                    self.processes@.last(),
                );
            }
        }
        self.push_ready(cur);
        self.switch_next(context);
        r
    }
}

/// What the fork syscall does, from the pre-state and trap context to the
/// post-state, context and result: the caller is saved; on success a copy
/// of it appears with a fresh stack window, zero in its return register
/// and the child's identifier in the parent's; child then parent are
/// enqueued and the scheduler picks; on failure only the save and the
/// rescheduling happen.
pub open spec fn fork_rel(
    m0: ProcessManager,
    m1: ProcessManager,
    c0: crate::context::ProcessContext,
    c1: crate::context::ProcessContext,
    r: Option<ProcessId>,
) -> bool {
    let c = m0.current;
    let saved = m0.processes@.update(c.0 - 1, saved_record(m0.proc_of(c), c0));
    if r is Some {
        let pid = ProcessId((m0.processes@.len() + 1) as u16);
        let parent2 = Process {
            context: (crate::context::ProcessContext { rax: pid.0 as u64, ..c0 }),
            ..saved[c.0 - 1]
        };
        let child = Process {
            status: ProgramStatus::Ready,
            ..m1.processes@[m0.processes@.len() as int]
        };
        let procs2 = saved.update(c.0 - 1, parent2).push(child);
        let q2 = m0.ready_queue@.push(pid).push(c);
        let (next, rest) = pick_next(procs2, q2, c);
        &&& r == Option::Some(pid)
        &&& m1.current == next
        &&& 1 <= next.0 <= procs2.len()
        &&& m1.ready_queue@ == rest
        &&& m1.processes@ == procs2.update(next.0 - 1, running_record(procs2[next.0 - 1]))
        &&& c1 == procs2[next.0 - 1].context
        &&& child.pid == pid
        &&& child.name == m0.proc_of(c).name
        &&& child.parent == Option::Some(c)
        &&& child.ticks == 0
        &&& child.exit_code is None
        &&& child.data_id == m0.proc_of(c).data_id
        &&& child.context.rax == 0
        &&& child.context.instruction_pointer == c0.instruction_pointer
        &&& child.vm->0.stack.mem@ == m0.proc_of(c).vm->0.stack.mem@
        &&& child.vm->0.stack.usage == m0.proc_of(c).vm->0.stack.usage
        &&& child.vm->0.page_table == m0.proc_of(c).vm->0.page_table
        &&& window_fresh(m0.processes@, child)
    } else {
        let q2 = m0.ready_queue@.push(c);
        let (next, rest) = pick_next(saved, q2, c);
        &&& m1.current == next
        &&& 1 <= next.0 <= saved.len()
        &&& m1.ready_queue@ == rest
        &&& m1.processes@ == saved.update(next.0 - 1, running_record(saved[next.0 - 1]))
        &&& c1 == saved[next.0 - 1].context
    }
}


impl ProcessManager {
    /// The index of the current process's shared data.
    fn current_data_id(&self) -> (r: usize)
        requires
            self.wf(),
        ensures
            r == self.proc_of(self.current).data_id,
            r < self.datas@.len(),
    {
        let ci = (self.current.0 - 1) as usize;
        self.processes[ci].data_id
    }

    /// Create a semaphore under `key` in the current process's data, with
    /// `value` free tokens. Fails, changing nothing, when the key is
    /// already taken.
    pub fn new_sem(&mut self, key: u32, value: usize) -> (r: bool)
        requires
            old(self).wf(),
        ensures
            final(self).wf(),
            ({
                let did = old(self).proc_of(old(self).current).data_id as int;
                let d0 = old(self).datas@[did].semaphores;
                &&& r == !d0.has_key(key)
                &&& !r ==> final(self).datas@ == old(self).datas@
                &&& *final(self) == (ProcessManager { datas: final(self).datas, ..*old(self) })
                &&& final(self).datas@ == old(self).datas@.update(did, final(self).datas@[did])
                &&& final(self).datas@[did].env == old(self).datas@[did].env
                &&& r ==> {
                    let d2 = final(self).datas@[did].semaphores;
                    &&& d2.has_key(key)
                    &&& d2.count_of(key) == value
                    &&& d2.waiters_of(key) == Seq::<ProcessId>::empty()
                }
            }),
    {
        let did = self.current_data_id();
        let mut data = self.datas.remove(did);
        let r = data.new_sem(key, value);
        self.datas.insert(did, data);
        proof {
            assert(self.datas@ =~= old(self).datas@.update(did as int, self.datas@[did as int]));
            assert(forall|j: int|
                0 <= j < self.datas@.len() && j != did as int ==> self.datas@[j] == old(self).datas@[j]);
            if !r {
                assert(self.datas@ =~= old(self).datas@);
            }
        }
        r
    }

    /// Drop the semaphore under `key` from the current process's data.
    /// Fails, changing nothing, when no such key exists. Dropping a
    /// semaphore that still has waiters orphans them — they can never be
    /// woken again; guarding against that is left to the caller.
    pub fn remove_sem(&mut self, key: u32) -> (r: bool)
        requires
            old(self).wf(),
        ensures
            final(self).wf(),
            ({
                let did = old(self).proc_of(old(self).current).data_id as int;
                let d0 = old(self).datas@[did].semaphores;
                &&& r == d0.has_key(key)
                &&& !r ==> final(self).datas@ == old(self).datas@
                &&& *final(self) == (ProcessManager { datas: final(self).datas, ..*old(self) })
                &&& final(self).datas@ == old(self).datas@.update(did, final(self).datas@[did])
                &&& final(self).datas@[did].env == old(self).datas@[did].env
                &&& r ==> !final(self).datas@[did].semaphores.has_key(key)
            }),
    {
        let did = self.current_data_id();
        let mut data = self.datas.remove(did);
        let r = data.remove_sem(key);
        self.datas.insert(did, data);
        proof {
            assert(self.datas@ =~= old(self).datas@.update(did as int, self.datas@[did as int]));
            assert(forall|j: int|
                0 <= j < self.datas@.len() && j != did as int ==> self.datas@[j] == old(self).datas@[j]);
            if !r {
                assert(self.datas@ =~= old(self).datas@);
            }
        }
        r
    }

    /// The semaphore-wait syscall on the current process's data. A free
    /// token is taken at once and zero returned; a missing key returns
    /// one; an exhausted semaphore queues the caller, blocks it, and hands
    /// the processor to the next ready process.
    pub fn sem_wait(&mut self, key: u32, context: &mut ProcessContext)
        requires
            old(self).wf(),
            !(old(self).status_of(old(self).current) is Dead),
        ensures
            final(self).wf(),
            sem_wait_rel(*old(self), *final(self), key, *old(context), *final(context)),
    {
        let cur = self.current;
        let did = self.current_data_id();
        let mut data = self.datas.remove(did);
        let r = data.sem_wait(key, cur);
        self.datas.insert(did, data);
        proof {
            assert(self.datas@ =~= old(self).datas@.update(did as int, self.datas@[did as int]));
            assert(forall|j: int|
                0 <= j < self.datas@.len() && j != did as int ==> self.datas@[j] == old(self).datas@[j]);
        }
        match r {
            crate::sync::SemaphoreResult::Done => {
                context.set_rax(0);
            },
            crate::sync::SemaphoreResult::NotExist => {
                proof {
                    assert(self.datas@ =~= old(self).datas@);
                }
                context.set_rax(1);
            },
            crate::sync::SemaphoreResult::Block(pid) => {
                self.save_current(context);
                let c = self.current;
                self.block(c);
                proof {
                    assert(self.processes@ =~= old(self).processes@.update(
                        c.0 - 1,
                        blocked_record(old(self).proc_of(c), *old(context)),
                    ));
                }
                self.switch_next(context);
            },
            crate::sync::SemaphoreResult::WakeUp(_) => {},
        }
    }
}

/// What the semaphore-wait syscall does, from the pre-state and trap
/// context to the post-state and context: a missing key returns one, a
/// free token is taken at once and zero returned, and an exhausted
/// semaphore queues and blocks the caller and hands the processor on.
pub open spec fn sem_wait_rel(
    m0: ProcessManager,
    m1: ProcessManager,
    key: u32,
    c0: crate::context::ProcessContext,
    c1: crate::context::ProcessContext,
) -> bool {
    let c = m0.current;
    let did = m0.proc_of(c).data_id as int;
    let d0 = m0.datas@[did].semaphores;
    &&& !d0.has_key(key) ==> m1.datas@ == m0.datas@ && m1 == (ProcessManager {
        datas: m1.datas,
        ..m0
    }) && c1 == (crate::context::ProcessContext { rax: 1u64, ..c0 })
    &&& d0.has_key(key) && d0.count_of(key) > 0 ==> {
            let d2 = m1.datas@[did].semaphores;
        &&& m1 == (ProcessManager { datas: m1.datas, ..m0 })
        &&& m1.datas@ == m0.datas@.update(did, m1.datas@[did])
        &&& m1.datas@[did].env == m0.datas@[did].env
        &&& d2.has_key(key)
        &&& d2.count_of(key) == d0.count_of(key) - 1
        &&& d2.waiters_of(key) == d0.waiters_of(key)
        &&& c1 == (crate::context::ProcessContext { rax: 0u64, ..c0 })
    }
    &&& d0.has_key(key) && d0.count_of(key) == 0 ==> {
        let d2 = m1.datas@[did].semaphores;
        let blocked = m0.processes@.update(c.0 - 1, blocked_record(m0.proc_of(c), c0));
        let (next, rest) = pick_next(blocked, m0.ready_queue@, c);
        &&& d2.has_key(key)
        &&& d2.count_of(key) == 0
        &&& d2.waiters_of(key) == d0.waiters_of(key).push(c)
        &&& m1.datas@ == m0.datas@.update(did, m1.datas@[did])
        &&& m1.datas@[did].env == m0.datas@[did].env
        &&& m1.current == next
        &&& 1 <= next.0 <= blocked.len()
        &&& m1.ready_queue@ == rest
        &&& m1.processes@ == blocked.update(next.0 - 1, running_record(blocked[next.0 - 1]))
        &&& c1 == blocked[next.0 - 1].context
        &&& m1 == (ProcessManager {
            processes: m1.processes,
            ready_queue: m1.ready_queue,
            datas: m1.datas,
            current: next,
            ..m0
        })
    }
}

impl ProcessManager {

    /// The semaphore-signal syscall on the current process's data. With
    /// waiters queued, the front one is woken and handed the token
    /// directly — the count does not move, so a third caller's wait still
    /// blocks; with none, the count grows by one and zero is returned. A
    /// missing key returns one. The signaller's own return register is
    /// written only on those two immediate outcomes; a wake says nothing
    /// to the signaller.
    pub fn sem_signal(&mut self, key: u32, context: &mut ProcessContext)
        requires
            old(self).wf(),
            ({
                let did = old(self).proc_of(old(self).current).data_id as int;
                let d0 = old(self).datas@[did].semaphores;
                d0.has_key(key) ==> d0.count_of(key) < usize::MAX
            }),
        ensures
            final(self).wf(),
            sem_signal_rel(*old(self), *final(self), key, *old(context), *final(context)),
    {
        let did = self.current_data_id();
        let mut data = self.datas.remove(did);
        let r = data.sem_signal(key);
        self.datas.insert(did, data);
        proof {
            assert(self.datas@ =~= old(self).datas@.update(did as int, self.datas@[did as int]));
            assert(forall|j: int|
                0 <= j < self.datas@.len() && j != did as int ==> self.datas@[j] == old(self).datas@[j]);
        }
        match r {
            crate::sync::SemaphoreResult::Done => {
                context.set_rax(0);
            },
            crate::sync::SemaphoreResult::NotExist => {
                proof {
                    assert(self.datas@ =~= old(self).datas@);
                }
                context.set_rax(1);
            },
            crate::sync::SemaphoreResult::WakeUp(pid) => {
                self.wake_up(pid, None);
            },
            crate::sync::SemaphoreResult::Block(_) => {},
        }
    }
}


/// Build the process core at boot: a manager whose first record is the
/// kernel process itself, already running, with the kernel stack mapped
/// and a fresh data instance, plus the application table the loader
/// found.
pub fn init(app_list: Vec<AppEntry>) -> (r: ProcessManager)
    ensures
        r.wf(),
        r.processes@.len() == 1,
        r.current.0 == crate::KERNEL_PID,
        r.proc_of(ProcessId(crate::KERNEL_PID)).status is Running,
        r.proc_of(ProcessId(crate::KERNEL_PID)).name@ == "kernel"@,
        r.proc_of(ProcessId(crate::KERNEL_PID)).parent is None,
        r.proc_of(ProcessId(crate::KERNEL_PID)).exit_code is None,
        r.proc_of(ProcessId(crate::KERNEL_PID)).data_id == 0,
        r.ready_queue@.len() == 0,
        r.wait_queue@.len() == 0,
        r.datas@.len() == 1,
        r.datas@[0].env@.len() == 0,
        r.datas@[0].semaphores.sems@.len() == 0,
        r.app_list == app_list,
{
    let vm = ProcessVm::new(PageTableContext { id: 0 }).init_kernel_vm();
    let mut kproc = Process::new(ProcessId(crate::KERNEL_PID), "kernel".to_owned(), None, vm, 0);
    kproc.resume();
    ProcessManager::new(kproc, ProcessData::new(), app_list)
}



/// What the semaphore-signal syscall does, from the pre-state and trap
/// context to the post-state and context: a missing key returns one; with
/// no waiters the count grows and zero is returned; with waiters the
/// front one is woken with the token, the count standing still and the
/// signaller's register untouched.
pub open spec fn sem_signal_rel(
    m0: ProcessManager,
    m1: ProcessManager,
    key: u32,
    c0: crate::context::ProcessContext,
    c1: crate::context::ProcessContext,
) -> bool {
    let c = m0.current;
    let did = m0.proc_of(c).data_id as int;
    let d0 = m0.datas@[did].semaphores;
    &&& !d0.has_key(key) ==> m1.datas@ == m0.datas@ && m1 == (ProcessManager {
        datas: m1.datas,
        ..m0
    }) && c1 == (crate::context::ProcessContext { rax: 1u64, ..c0 })
    &&& d0.has_key(key) && d0.waiters_of(key).len() == 0 ==> {
        let d2 = m1.datas@[did].semaphores;
        &&& m1 == (ProcessManager { datas: m1.datas, ..m0 })
        &&& m1.datas@ == m0.datas@.update(did, m1.datas@[did])
        &&& m1.datas@[did].env == m0.datas@[did].env
        &&& d2.has_key(key)
        &&& d2.count_of(key) == d0.count_of(key) + 1
        &&& d2.waiters_of(key) == d0.waiters_of(key)
        &&& c1 == (crate::context::ProcessContext { rax: 0u64, ..c0 })
    }
    &&& d0.has_key(key) && d0.waiters_of(key).len() > 0 ==> {
        let w = d0.waiters_of(key)[0];
        let d2 = m1.datas@[did].semaphores;
        let (p2, q2) = wake_one(m0.processes@, m0.ready_queue@, w, Option::None);
        &&& d2.has_key(key)
        &&& d2.count_of(key) == d0.count_of(key)
        &&& d2.waiters_of(key) == d0.waiters_of(key).drop_first()
        &&& m1.datas@ == m0.datas@.update(did, m1.datas@[did])
        &&& m1.datas@[did].env == m0.datas@[did].env
        &&& m1.processes@ == p2
        &&& m1.ready_queue@ == q2
        &&& c1 == c0
        &&& m1 == (ProcessManager {
            processes: m1.processes,
            ready_queue: m1.ready_queue,
            datas: m1.datas,
            ..m0
        })
    }
}

/// Every identifier maps to exactly one record: two distinct table slots
/// never carry the same identifier, and looking an identifier up yields a
/// record carrying exactly it. The table itself only ever grows — each
/// operation's contract pins its length — so this holds across any run of
/// spawn, fork and kill.
pub proof fn lemma_pid_unique(m: ProcessManager)
    requires
        m.wf(),
    ensures
        forall|i: int, j: int|
            0 <= i < j < m.processes@.len() ==> (#[trigger] m.processes@[i]).pid != (
            #[trigger] m.processes@[j]).pid,
        forall|p: ProcessId| #[trigger] m.pid_valid(p) ==> m.proc_of(p).pid == p,
{
    assert forall|p: ProcessId| #[trigger] m.pid_valid(p) implies m.proc_of(p).pid == p by {
        assert(m.processes@[p.0 - 1].pid.0 == p.0);
    }
}

/// The scheduler's state as round-robin fairness speaks of it: the current
/// process runs, and the queue holds other, distinct, ready processes.
pub open spec fn rr_ready(procs: Seq<Process>, q: Seq<ProcessId>, c: ProcessId) -> bool {
    &&& 1 <= c.0 <= procs.len()
    &&& procs[c.0 - 1].status is Running
    &&& forall|k: int|
        0 <= k < q.len() ==> 1 <= (#[trigger] q[k]).0 <= procs.len() && procs[q[k].0
            - 1].status is Ready && q[k] != c
    &&& forall|k: int, l: int| 0 <= k < l < q.len() ==> (#[trigger] q[k]) != (#[trigger] q[l])
}

/// One round-robin rotation: the front of the queue is scheduled and the
/// preempted process goes to the back; an empty queue re-schedules the
/// current process.
pub open spec fn rr_step(q: Seq<ProcessId>, c: ProcessId) -> (ProcessId, Seq<ProcessId>) {
    if q.len() > 0 {
        (q[0], q.drop_first().push(c))
    } else {
        (c, q)
    }
}

/// The processes scheduled by `n` rotations, in order.
pub open spec fn rr_sched(q: Seq<ProcessId>, c: ProcessId, n: nat) -> Seq<ProcessId>
    decreases n,
{
    if n == 0 {
        Seq::empty()
    } else {
        let (next, q2) = rr_step(q, c);
        seq![next] + rr_sched(q2, next, (n - 1) as nat)
    }
}

/// Within the first `n` rotations, `n` at most one more than the queue is
/// long, the schedule is simply the queue followed by the current process.
pub proof fn lemma_rr_sched(q: Seq<ProcessId>, c: ProcessId, n: nat)
    requires
        n <= q.len() + 1,
    ensures
        rr_sched(q, c, n) == (q + seq![c]).take(n as int),
    decreases n,
{
    if n == 0 {
        assert(rr_sched(q, c, n) =~= (q + seq![c]).take(0));
    } else if q.len() == 0 {
        assert(rr_sched(q, c, (n - 1) as nat) == Seq::<ProcessId>::empty());
        assert(rr_sched(q, c, n) =~= (q + seq![c]).take(n as int));
    } else {
        let (next, q2) = rr_step(q, c);
        lemma_rr_sched(q2, next, (n - 1) as nat);
        assert(rr_sched(q, c, n) == seq![q[0]] + (q2 + seq![q[0]]).take(n - 1));
        assert(seq![q[0]] + (q.drop_first().push(c) + seq![q[0]]).take(n - 1) =~= (q
            + seq![c]).take(n as int)) by {
            assert(forall|i: int|
                0 <= i < n - 1 ==> (q.drop_first().push(c) + seq![q[0]])[i] == (#[trigger] (q
                    + seq![c])[i + 1]));
        }
    }
}

/// Round-robin fairness: with `N` ready processes — the queue plus the one
/// running — and no blocking, `N` consecutive rotations schedule every one
/// of them exactly once, in queue order, the preempted process last.
pub proof fn lemma_round_robin(q: Seq<ProcessId>, c: ProcessId)
    requires
        forall|k: int, l: int| 0 <= k < l < q.len() ==> (#[trigger] q[k]) != (#[trigger] q[l]),
        forall|k: int| 0 <= k < q.len() ==> (#[trigger] q[k]) != c,
    ensures
        ({
            let sched = rr_sched(q, c, (q.len() + 1) as nat);
            &&& sched == q.push(c)
            &&& forall|i: int, j: int|
                0 <= i < j < sched.len() ==> (#[trigger] sched[i]) != (#[trigger] sched[j])
            &&& forall|p: ProcessId| #[trigger] sched.contains(p) == (q.contains(p) || p == c)
        }),
{
    lemma_rr_sched(q, c, (q.len() + 1) as nat);
    let sched = rr_sched(q, c, (q.len() + 1) as nat);
    assert(sched =~= q.push(c));
    assert forall|p: ProcessId| #[trigger] sched.contains(p) implies (q.contains(p) || p == c) by {
        let i = choose|i: int| 0 <= i < sched.len() && sched[i] == p;
        if i < q.len() {
            assert(q[i] == p);
        }
    }
    assert forall|p: ProcessId| q.contains(p) || p == c implies #[trigger] sched.contains(p) by {
        if q.contains(p) {
            let i = choose|i: int| 0 <= i < q.len() && q[i] == p;
            assert(sched[i] == p);
        } else {
            assert(sched[q.len() as int] == p);
        }
    }
}

/// One timer tick refines one rotation: from a state where the queue holds
/// distinct ready processes and the current one runs, the save-enqueue-pick
/// transition that `switch`'s contract describes schedules exactly the
/// rotation's choice, leaves the rotation's queue, and lands back in such a
/// state — so iterating `switch` iterates the rotation, and
/// `lemma_round_robin` applies to a whole run of ticks.
pub proof fn lemma_switch_rotation(
    procs: Seq<Process>,
    q: Seq<ProcessId>,
    c: ProcessId,
    ctx: crate::context::ProcessContext,
)
    requires
        rr_ready(procs, q, c),
    ensures
        ({
            let saved = procs.update(c.0 - 1, saved_record(procs[c.0 - 1], ctx));
            let (next, rest) = pick_next(saved, q.push(c), c);
            let post = saved.update(next.0 - 1, running_record(saved[next.0 - 1]));
            &&& saved[c.0 - 1].status is Ready
            &&& (next, rest) == rr_step(q, c)
            &&& rr_ready(post, rest, next)
        }),
{
    let saved = procs.update(c.0 - 1, saved_record(procs[c.0 - 1], ctx));
    let enq = q.push(c);
    if q.len() > 0 {
        assert(enq[0] == q[0]);
        assert(q[0] != c);
        assert(saved[q[0].0 - 1].status is Ready);
        let (next, rest) = pick_next(saved, enq, c);
        assert(next == q[0]);
        assert(rest =~= q.drop_first().push(c));
        assert(rest == rr_step(q, c).1);
        let post = saved.update(next.0 - 1, running_record(saved[next.0 - 1]));
        assert(post[next.0 - 1].status is Running);
        assert forall|k: int|
            0 <= k < rest.len() implies 1 <= (#[trigger] rest[k]).0 <= post.len() && post[rest[k].0
            - 1].status is Ready && rest[k] != next by {
            if k < q.len() - 1 {
                assert(rest[k] == q[k + 1]);
            } else {
                assert(rest[k] == c);
            }
        }
        assert forall|k: int, l: int|
            0 <= k < l < rest.len() implies (#[trigger] rest[k]) != (#[trigger] rest[l]) by {
            if l < q.len() - 1 {
                assert(rest[k] == q[k + 1] && rest[l] == q[l + 1]);
            } else {
                assert(rest[l] == c);
                if k < q.len() - 1 {
                    assert(rest[k] == q[k + 1]);
                }
            }
        }
    } else {
        assert(enq[0] == c);
        assert(saved[c.0 - 1].status is Ready);
        let (next, rest) = pick_next(saved, enq, c);
        assert(next == c);
        assert(rest =~= q);
    }
}

/// A caller that waited for a live process is woken by that process's
/// kill, with the kill's code as its return value: from the registration
/// `wait_pid`'s contract leaves and the wake `kill`'s contract performs,
/// the caller stands ready, enqueued, with exactly the killer's code in
/// its return register.
pub proof fn lemma_wait_then_kill(
    m0: ProcessManager,
    m1: ProcessManager,
    m2: ProcessManager,
    c: ProcessId,
    t: ProcessId,
    r: isize,
)
    requires
        m0.wf(),
        m1.wf(),
        c == m0.current,
        m0.pid_valid(t),
        t != c,
        // what wait_pid's contract leaves: the caller registered and blocked
        m1.waiters_of(t) == insert_waiter(m0.waiters_of(t), c),
        m1.pid_valid(c),
        m1.pid_valid(t),
        m1.status_of(c) is Blocked,
        !(m1.status_of(t) is Dead),
        // what kill's contract then does to m1
        ({
            let killed = m1.processes@.update(
                t.0 - 1,
                (Process {
                    status: ProgramStatus::Dead,
                    exit_code: Option::Some(r),
                    ..m1.proc_of(t)
                }),
            );
            let (p2, q2) = wake_fold(killed, m1.ready_queue@, m1.waiters_of(t), Option::Some(r));
            m2.processes@ == p2 && m2.ready_queue@ == q2
        }),
    ensures
        m2.status_of(c) is Ready,
        m2.proc_of(c).context.rax == r as u64,
        m2.ready_queue@.contains(c),
{
    let ws0 = m0.waiters_of(t);
    assert(forall|k: int, l: int|
        0 <= k < l < ws0.len() ==> (#[trigger] ws0[k]).0 < (#[trigger] ws0[l]).0) by {
        if m0.has_wait_entry(t) {
            let i = m0.wait_entry_index(t);
            assert(m0.wait_entry_wf(m0.wait_queue@[i]));
        }
    }
    lemma_insert_waiter(ws0, c);
    let ws = m1.waiters_of(t);
    assert(ws.contains(c));
    assert(forall|k: int, l: int|
        0 <= k < l < ws.len() ==> (#[trigger] ws[k]) != (#[trigger] ws[l])) by {
        assert(forall|k: int, l: int|
            0 <= k < l < ws.len() ==> (#[trigger] ws[k]).0 < (#[trigger] ws[l]).0);
    }
    let killed = m1.processes@.update(
        t.0 - 1,
        (Process { status: ProgramStatus::Dead, exit_code: Option::Some(r), ..m1.proc_of(t) }),
    );
    lemma_wake_fold(killed, m1.ready_queue@, ws, Option::Some(r));
    let j = choose|j: int| 0 <= j < ws.len() && ws[j] == c;
    assert(killed[c.0 - 1] == m1.proc_of(c));
    assert(!(killed[ws[j].0 - 1].status is Dead));
    let (p2, q2) = wake_fold(killed, m1.ready_queue@, ws, Option::Some(r));
    assert(p2[ws[j].0 - 1] == woken_record(killed[ws[j].0 - 1], Option::Some(r)));
    assert(q2.contains(ws[j]));
}


impl ProcessManager {
    /// Handle a page fault at `addr` for the current process. A fault
    /// carrying a protection violation is illegal and rejected — it can
    /// never be stack growth; otherwise the current process's stack
    /// decides, growing as its contract says. A rejected fault changes
    /// nothing; the caller is expected to terminate only the faulting
    /// process, never the system.
    pub fn handle_page_fault(&mut self, addr: u64, protection_violation: bool) -> (r: bool)
        requires
            old(self).wf(),
        ensures
            final(self).wf(),
            *final(self) == (ProcessManager { processes: final(self).processes, ..*old(self) }),
            protection_violation ==> r == false && final(self).processes@ == old(self).processes@,
            !protection_violation ==> ({
                let c = old(self).current;
                let vm0 = old(self).proc_of(c).vm->0;
                &&& r == (vm0.stack.on_stack_spec(addr) && crate::stack::page_of(addr)
                    < vm0.stack.end)
                &&& !r ==> final(self).processes@ == old(self).processes@
                &&& final(self).processes@ == old(self).processes@.update(
                    c.0 - 1,
                    (Process {
                        vm: Option::Some(final(self).proc_of(c).vm->0),
                        ..old(self).proc_of(c)
                    }),
                )
                &&& ({
                    let vm2 = final(self).proc_of(c).vm->0;
                    &&& vm2.page_table == vm0.page_table
                    &&& vm2.stack.end == vm0.stack.end
                    &&& vm2.stack.start <= vm0.stack.start
                    &&& (vm0.stack.on_stack_spec(addr) && crate::stack::page_of(addr)
                        < vm0.stack.start ==> vm2.stack.start == crate::stack::page_of(addr))
                    &&& (!r ==> vm2 == vm0)
                })
            }),
    {
        if protection_violation {
            return false;
        }
        let ci = (self.current.0 - 1) as usize;
        let mut p = self.processes.remove(ci);
        let r = match &mut p.vm {
            Some(vm) => vm.handle_page_fault(addr),
            None => false,
        };
        self.processes.insert(ci, p);
        proof {
            assert(self.processes@ =~= old(self).processes@.update(
                ci as int,
                (Process {
                    vm: Option::Some(self.proc_of(old(self).current).vm->0),
                    ..old(self).proc_of(old(self).current)
                }),
            ));
            assert(forall|j: int|
                0 <= j < self.processes@.len() && j != ci as int ==> self.processes@[j] == old(self).processes@[j]);
            if !r {
                assert(self.processes@ =~= old(self).processes@);
            }
        }
        r
    }
}


/// The fast path of a wait, exactly as `wait_pid`'s contract describes it:
/// the target's exit code is on record, nothing changes, and the code
/// lands in the caller's return register.
pub open spec fn wait_returns(
    m0: ProcessManager,
    m1: ProcessManager,
    pid: ProcessId,
    rax: u64,
) -> bool {
    &&& m0.exit_code_spec(pid) is Some
    &&& m1 == m0
    &&& rax == m0.exit_code_spec(pid)->0 as u64
}

/// Waiting on an already exited process never blocks and is idempotent:
/// one fast-path wait leaves the manager exactly as it was, so a second
/// finds the same record and returns the same code — and so on, however
/// often it is repeated.
pub proof fn lemma_wait_pid_idempotent(
    m0: ProcessManager,
    m1: ProcessManager,
    m2: ProcessManager,
    pid: ProcessId,
    rax1: u64,
    rax2: u64,
)
    requires
        wait_returns(m0, m1, pid, rax1),
        wait_returns(m1, m2, pid, rax2),
    ensures
        rax1 == rax2,
        m2 == m0,
{
}

} // verus!
