//! A process's virtual memory: a handle on its address space and its stack.
//! The page-table plumbing itself is an external collaborator; what is
//! modelled is what the process core decides with it — which address space
//! a record belongs to, where its stack window lies, and how the stack
//! grows and is copied.

use crate::pid::ProcessId;
use crate::stack::{
    page_of, window_of, Stack, StackError, PAGE_SIZE, STACK_DEF_PAGE, STACK_INIT_BOT,
    STACK_DEF_SIZE, STACK_INIT_TOP, STACK_MAX, STACK_MAX_SIZE,
};
use vstd::prelude::*;

verus! {

/// The number of stack windows that fit under `STACK_MAX`, and so the
/// largest process identifier that can be given a window by the fixed
/// formula.
pub const STACK_WINDOWS: u64 = STACK_MAX / STACK_MAX_SIZE;

/// A handle on one address space. Cloning the kernel's page table for a
/// spawned process yields a fresh address space; a fork shares the
/// parent's. The model keeps only that identity: records with equal `id`
/// share their mappings.
#[derive(Clone, Copy, Debug, PartialEq, Eq, Structural)]
pub struct PageTableContext {
    /// Which address space this is.
    pub id: u64,
}

/// A process's virtual memory unit: its address space handle and its stack.
pub struct ProcessVm {
    /// The address space the process runs in.
    pub page_table: PageTableContext,
    /// The process's stack.
    pub stack: Stack,
}

impl ProcessVm {
    /// Well-formedness of the stack model.
    pub open spec fn wf(&self) -> bool {
        self.stack.wf()
    }

    /// A virtual memory unit for a process under construction: the stack is
    /// not mapped yet.
    pub fn new(page_table: PageTableContext) -> (r: ProcessVm)
        ensures
            r.wf(),
            r.page_table == page_table,
            r.stack.usage == 0,
    {
        ProcessVm { page_table, stack: Stack::empty() }
    }

    /// Turn a fresh unit into the kernel's own: the boot stack is already
    /// mapped.
    pub fn init_kernel_vm(self) -> (r: ProcessVm)
        ensures
            r.wf(),
            r.page_table == self.page_table,
            r.stack.usage == crate::stack::KSTACK_DEF_PAGE,
    {
        ProcessVm { page_table: self.page_table, stack: Stack::kstack() }
    }

    /// Map the initial stack page for process `pid`, in the window the
    /// fixed formula assigns it, and return the initial stack pointer:
    /// just below the window's top. Sibling windows never overlap because
    /// the formula spaces them a full window apart.
    pub fn init_proc_stack(&mut self, pid: ProcessId) -> (r: u64)
        requires
            old(self).wf(),
            1 <= pid.0 < STACK_WINDOWS,
        ensures
            final(self).wf(),
            final(self).page_table == old(self).page_table,
            r == STACK_INIT_TOP - (pid.0 - 1) * STACK_MAX_SIZE,
            final(self).stack.usage == STACK_DEF_PAGE,
            final(self).stack.end * PAGE_SIZE == STACK_MAX - (pid.0 - 1) * STACK_MAX_SIZE,
            window_of((final(self).stack.start * PAGE_SIZE) as u64) == STACK_WINDOWS - pid.0,
    {
        proof {
            lemma_pid_window(pid.0 as u64);
        }
        let stack_top: u64 = STACK_INIT_TOP - (pid.0 as u64 - 1) * STACK_MAX_SIZE;
        let stack_bot: u64 = STACK_INIT_BOT - (pid.0 as u64 - 1) * STACK_MAX_SIZE;
        let top_page: u64 = stack_bot / PAGE_SIZE + STACK_DEF_PAGE - 1;
        self.stack = Stack::new(top_page, STACK_DEF_PAGE);
        stack_top
    }

    /// Handle a page fault at `addr` against this process's stack, growing
    /// it if the fault is a stack-growth fault.
    pub fn handle_page_fault(&mut self, addr: u64) -> (r: bool)
        requires
            old(self).wf(),
        ensures
            final(self).wf(),
            final(self).page_table == old(self).page_table,
            !old(self).stack.on_stack_spec(addr) ==> r == false && final(self).stack == old(self).stack,
            old(self).stack.on_stack_spec(addr) ==> {
                &&& r == (page_of(addr) < old(self).stack.end)
                &&& (!r ==> final(self).stack == old(self).stack)
            },
            final(self).stack.end == old(self).stack.end,
            final(self).stack.start <= old(self).stack.start,
            old(self).stack.on_stack_spec(addr) && page_of(addr) < old(self).stack.start ==> final(self).stack.start == page_of(addr),
    {
        self.stack.handle_page_fault(addr)
    }

    /// Bytes of stack memory this process has backed.
    pub fn memory_usage(&self) -> (r: u64)
        requires
            self.wf(),
        ensures
            r == self.stack.usage * PAGE_SIZE,
    {
        self.stack.memory_usage()
    }

    /// The lowest backed stack address.
    pub fn stack_bot(&self) -> (r: u64)
        requires
            self.wf(),
        ensures
            r == self.stack.bot_addr(),
    {
        self.stack.stack_bot()
    }

    /// Copy this unit for a fork. The child shares the parent's address
    /// space, so its stack is placed by probing downward, starting
    /// `offset_count` windows below the parent's, for a window whose base is
    /// not in `occupied`; the stack bytes are copied, never shared.
    pub fn fork(&self, offset_count: u64, occupied: &Vec<u64>) -> (r: Option<ProcessVm>)
        requires
            self.wf(),
            self.stack.usage >= 1,
            offset_count >= 1,
        ensures
            match r {
                Option::Some(child) => {
                    &&& child.wf()
                    &&& child.page_table == self.page_table
                    &&& child.stack.usage == self.stack.usage
                    &&& child.stack.mem@ == self.stack.mem@
                    &&& child.stack.start < self.stack.start
                    &&& !occupied@.contains(
                        ((window_of((child.stack.start * PAGE_SIZE) as u64)
                            * STACK_MAX_SIZE)) as u64,
                    )
                },
                Option::None => true,
            },
    {
        match self.stack.fork(offset_count, occupied) {
            Some(stack) => Some(ProcessVm { page_table: self.page_table, stack }),
            None => None,
        }
    }
}

/// The stack window the fixed formula assigns to `pid` lies exactly one
/// window below the previous process's, wholly inside one window.
proof fn lemma_pid_window(pid: u64)
    requires
        1 <= pid < STACK_WINDOWS,
    ensures
        ({
            let bot = STACK_INIT_BOT - (pid - 1) * STACK_MAX_SIZE;
            let top_page = bot as int / PAGE_SIZE as int + STACK_DEF_PAGE - 1;
            &&& (pid - 1) * STACK_MAX_SIZE <= STACK_INIT_BOT
            &&& 1 <= top_page + 1 < crate::stack::PAGE_LIMIT
            &&& STACK_DEF_PAGE <= top_page + 1
            &&& (top_page + 1) * PAGE_SIZE == STACK_MAX - (pid - 1) * STACK_MAX_SIZE
            &&& window_of((((top_page + 1 - STACK_DEF_PAGE) * PAGE_SIZE)) as u64) == STACK_WINDOWS
                - pid
            &&& (top_page + 1) * PAGE_SIZE <= (window_of(
                (((top_page + 1 - STACK_DEF_PAGE) * PAGE_SIZE)) as u64,
            ) + 1) * STACK_MAX_SIZE
        }),
{
    let bot = STACK_INIT_BOT - (pid - 1) * STACK_MAX_SIZE;
    let w = STACK_WINDOWS - pid;
    assert(STACK_MAX == STACK_WINDOWS * STACK_MAX_SIZE) by (nonlinear_arith);
    assert(bot as int == w * STACK_MAX_SIZE + (STACK_MAX_SIZE - STACK_DEF_SIZE)) by {
        vstd::arithmetic::mul::lemma_mul_is_distributive_sub_other_way(
            STACK_MAX_SIZE as int,
            STACK_WINDOWS as int,
            pid as int,
        );
        vstd::arithmetic::mul::lemma_mul_is_distributive_sub_other_way(
            STACK_MAX_SIZE as int,
            pid as int,
            1,
        );
        vstd::arithmetic::mul::lemma_mul_basics(STACK_MAX_SIZE as int);
    }
    assert(bot as int / PAGE_SIZE as int == w * (crate::stack::STACK_MAX_PAGES as int) + (
    crate::stack::STACK_MAX_PAGES - STACK_DEF_PAGE)) by {
        vstd::arithmetic::div_mod::lemma_fundamental_div_mod_converse(
            bot as int,
            PAGE_SIZE as int,
            w * (crate::stack::STACK_MAX_PAGES as int) + (crate::stack::STACK_MAX_PAGES
                - STACK_DEF_PAGE),
            0,
        );
        assert((w * (crate::stack::STACK_MAX_PAGES as int) + (crate::stack::STACK_MAX_PAGES
            - STACK_DEF_PAGE)) * PAGE_SIZE == bot as int) by (nonlinear_arith)
            requires
                bot as int == w * STACK_MAX_SIZE + (STACK_MAX_SIZE - STACK_DEF_SIZE),
                STACK_MAX_SIZE == crate::stack::STACK_MAX_PAGES * PAGE_SIZE,
                STACK_DEF_SIZE == STACK_DEF_PAGE * PAGE_SIZE,
        ;
    }
    let bp = bot as int / PAGE_SIZE as int;
    let top_page = bp + STACK_DEF_PAGE - 1;
    assert((top_page + 1) * PAGE_SIZE == bot as int + STACK_DEF_SIZE) by (nonlinear_arith)
        requires
            top_page + 1 == bp + STACK_DEF_PAGE,
            bp * PAGE_SIZE == bot as int,
            STACK_DEF_SIZE == STACK_DEF_PAGE * PAGE_SIZE,
    ;
    assert(bot as int + STACK_DEF_SIZE == (w + 1) * STACK_MAX_SIZE) by (nonlinear_arith)
        requires
            bot as int == w * STACK_MAX_SIZE + (STACK_MAX_SIZE - STACK_DEF_SIZE),
    ;
    assert(window_of(((bp * PAGE_SIZE)) as u64) == w) by {
        assert(bp * PAGE_SIZE == bot as int);
        vstd::arithmetic::div_mod::lemma_fundamental_div_mod_converse(
            bot as int,
            STACK_MAX_SIZE as int,
            w,
            (STACK_MAX_SIZE - STACK_DEF_SIZE) as int,
        );
    }
    assert((pid - 1) * STACK_MAX_SIZE <= STACK_INIT_BOT) by (nonlinear_arith)
        requires
            1 <= pid < STACK_WINDOWS,
            STACK_INIT_BOT == STACK_MAX - STACK_DEF_SIZE,
            STACK_MAX == STACK_WINDOWS * STACK_MAX_SIZE,
            STACK_DEF_SIZE <= STACK_MAX_SIZE,
    ;
}

} // verus!
