//! A process stack: a fixed virtual-address window, backed lazily from the
//! top down. The window is carved out of the address space in fixed-size
//! slots, so sibling stacks never overlap; the backed range only ever grows
//! downward. The bytes of the backed range are modelled here directly, so
//! that the deep copy a fork performs is visible in the specification.

use vstd::prelude::*;

verus! {

/// Bytes per page.
pub const PAGE_SIZE: u64 = 4096;

/// Top of user stack space: stack windows are carved out below this address.
pub const STACK_MAX: u64 = 0x4000_0000_0000;

/// The most pages one stack may ever back.
pub const STACK_MAX_PAGES: u64 = 0x100000;

/// The size in bytes of one stack window, which equals the maximum stack
/// size.
pub const STACK_MAX_SIZE: u64 = STACK_MAX_PAGES * PAGE_SIZE;

/// Pages backed when a stack is first mapped.
pub const STACK_DEF_PAGE: u64 = 1;

/// Bytes backed when a stack is first mapped.
pub const STACK_DEF_SIZE: u64 = STACK_DEF_PAGE * PAGE_SIZE;

/// Bottom address of the first user stack's initially backed page.
pub const STACK_INIT_BOT: u64 = STACK_MAX - STACK_DEF_SIZE;

/// Initial user stack pointer: just below the top of the first window.
pub const STACK_INIT_TOP: u64 = STACK_MAX - 8;

/// Page number of the page holding `STACK_INIT_TOP`.
pub const STACK_INIT_TOP_PAGE: u64 = STACK_INIT_TOP / PAGE_SIZE;

/// Top of the kernel stack's window.
pub const KSTACK_MAX: u64 = 0xffff_ff02_0000_0000;

/// Pages backed for the kernel stack at boot.
pub const KSTACK_DEF_PAGE: u64 = 512;

/// Bytes backed for the kernel stack at boot.
pub const KSTACK_DEF_SIZE: u64 = KSTACK_DEF_PAGE * PAGE_SIZE;

/// Bottom address of the kernel stack's initially backed range.
pub const KSTACK_INIT_BOT: u64 = KSTACK_MAX - KSTACK_DEF_SIZE;

/// Initial kernel stack pointer.
pub const KSTACK_INIT_TOP: u64 = KSTACK_MAX - 8;

/// Largest page number the model admits (so a page number times
/// `PAGE_SIZE` always fits in an address).
pub const PAGE_LIMIT: u64 = 0x10_0000_0000_0000;

/// Why growing a stack failed.
#[derive(Clone, Copy, Debug, PartialEq, Eq, Structural)]
pub enum StackError {
    /// The fault would need the stack to cover more than the configured
    /// maximum, or lies above the already backed range.
    Overflow,
}

/// The index of the fixed-size window an address falls into.
pub open spec fn window_of(addr: u64) -> int {
    addr as int / STACK_MAX_SIZE as int
}

/// The number of the page holding an address.
pub open spec fn page_of(addr: u64) -> int {
    addr as int / PAGE_SIZE as int
}

/// A stack descriptor: the backed page range `[start, end)` (page numbers,
/// growing downward from `end`), the count of backed pages, and the bytes
/// the range holds. `mem[i]` is the byte at address `start * PAGE_SIZE + i`.
pub struct Stack {
    /// First backed page.
    pub start: u64,
    /// One past the last backed page.
    pub end: u64,
    /// Count of backed pages, always `end - start`.
    pub usage: u64,
    /// The bytes of the backed range.
    pub mem: Vec<u8>,
}

impl Stack {
    /// Well-formedness: the page range is consistent with the usage count,
    /// bounded, no larger than the maximum stack size, it lies inside one
    /// window, and the byte model covers exactly the backed range.
    pub open spec fn wf(&self) -> bool {
        &&& self.start <= self.end < PAGE_LIMIT
        &&& self.usage == self.end - self.start
        &&& self.usage <= STACK_MAX_PAGES
        &&& self.end * PAGE_SIZE <= (window_of((self.start * PAGE_SIZE) as u64) + 1)
            * STACK_MAX_SIZE
        &&& self.mem@.len() == self.usage * PAGE_SIZE
    }

    /// Whether `addr` falls into this stack's window.
    pub open spec fn on_stack_spec(&self, addr: u64) -> bool {
        window_of(addr) == window_of((self.start * PAGE_SIZE) as u64)
    }

    /// The address of this stack's bottom (lowest backed byte).
    pub open spec fn bot_addr(&self) -> int {
        self.start * PAGE_SIZE
    }

    /// The address one past this stack's top.
    pub open spec fn top_addr(&self) -> int {
        self.end * PAGE_SIZE
    }

    /// A fresh stack of `size` backed pages whose topmost page is
    /// `top_page`, zero-filled.
    pub fn new(top_page: u64, size: u64) -> (r: Stack)
        requires
            1 <= size <= STACK_MAX_PAGES,
            size <= top_page + 1,
            top_page + 1 < PAGE_LIMIT,
            (top_page + 1) * PAGE_SIZE <= (window_of(
                (((top_page + 1) as u64 - size) * PAGE_SIZE) as u64,
            ) + 1) * STACK_MAX_SIZE,
        ensures
            r.wf(),
            r.end == top_page + 1,
            r.start == top_page + 1 - size,
            r.usage == size,
            r.mem@ == Seq::<u8>::new((size * PAGE_SIZE) as nat, |i: int| 0u8),
    {
        let start: u64 = top_page + 1 - size;
        let mem = zero_bytes(size * PAGE_SIZE);
        Stack { start, end: top_page + 1, usage: size, mem }
    }

    /// The not-yet-mapped stack of a process under construction: an empty
    /// range at the top of the first user window.
    pub fn empty() -> (r: Stack)
        ensures
            r.wf(),
            r.usage == 0,
            r.start == STACK_INIT_TOP_PAGE,
            r.end == STACK_INIT_TOP_PAGE,
            r.mem@.len() == 0,
    {
        Stack { start: STACK_INIT_TOP_PAGE, end: STACK_INIT_TOP_PAGE, usage: 0, mem: Vec::new() }
    }

    /// The kernel's boot stack: a fixed range at the top of the kernel
    /// stack window.
    pub fn kstack() -> (r: Stack)
        ensures
            r.wf(),
            r.usage == KSTACK_DEF_PAGE,
            r.start == KSTACK_INIT_BOT / PAGE_SIZE,
            r.end == KSTACK_MAX / PAGE_SIZE,
    {
        let start: u64 = KSTACK_INIT_BOT / PAGE_SIZE;
        let end: u64 = KSTACK_MAX / PAGE_SIZE;
        let mem = zero_bytes(KSTACK_DEF_PAGE * PAGE_SIZE);
        proof {
            vstd::arithmetic::div_mod::lemma_fundamental_div_mod_converse(
                (start * PAGE_SIZE) as int,
                STACK_MAX_SIZE as int,
                0xffff_ff01,
                0xffe0_0000,
            );
        }
        Stack { start, end, usage: KSTACK_DEF_PAGE, mem }
    }

    /// Map the initial page of a fresh user stack, at the top of the first
    /// user window.
    pub fn init(&mut self)
        requires
            old(self).usage == 0,
        ensures
            final(self).wf(),
            final(self).start == STACK_INIT_BOT / PAGE_SIZE,
            final(self).end == STACK_MAX / PAGE_SIZE,
            final(self).usage == STACK_DEF_PAGE,
    {
        self.start = STACK_INIT_BOT / PAGE_SIZE;
        self.end = STACK_MAX / PAGE_SIZE;
        self.usage = STACK_DEF_PAGE;
        self.mem = zero_bytes(STACK_DEF_PAGE * PAGE_SIZE);
        proof {
            vstd::arithmetic::div_mod::lemma_fundamental_div_mod_converse(
                (self.start * PAGE_SIZE) as int,
                STACK_MAX_SIZE as int,
                0x3fff,
                (STACK_MAX_SIZE - STACK_DEF_SIZE) as int,
            );
        }
    }

    /// Whether `addr` falls into this stack's window.
    pub fn is_on_stack(&self, addr: u64) -> (r: bool)
        requires
            self.wf(),
        ensures
            r == self.on_stack_spec(addr),
    {
        let cur_stack_bot: u64 = self.start * PAGE_SIZE;
        addr / STACK_MAX_SIZE == cur_stack_bot / STACK_MAX_SIZE
    }

    /// Grow the stack so that the page holding `addr` is backed. A fault on
    /// an already backed page is a no-op; a fault above the backed range, or
    /// one that would need more than the maximum page count, fails and
    /// changes nothing; otherwise the range is extended downward to the
    /// faulting page, the new pages zero-filled.
    pub fn grow_stack(&mut self, addr: u64) -> (r: Result<(), StackError>)
        requires
            old(self).wf(),
            old(self).on_stack_spec(addr),
        ensures
            final(self).wf(),
            final(self).end == old(self).end,
            final(self).on_stack_spec(addr),
            window_of((final(self).start * PAGE_SIZE) as u64) == window_of(
                (old(self).start * PAGE_SIZE) as u64,
            ),
            (r is Ok) <==> page_of(addr) < old(self).end,
            // a fault on a backed page changes nothing
            old(self).start <= page_of(addr) < old(self).end ==> *final(self)
                == *old(self),
            // a fault above the backed range is refused
            page_of(addr) >= old(self).end ==> r == Result::<(), StackError>::Err(
                StackError::Overflow,
            ) && *final(self) == *old(self),
            // a growth fault extends the range down to the faulting page
            page_of(addr) < old(self).start ==> {
                &&& final(self).start == page_of(addr)
                &&& final(self).usage == old(self).end - page_of(addr)
                &&& final(self).mem@ == Seq::<u8>::new(
                    ((old(self).start - page_of(addr)) * PAGE_SIZE) as nat,
                    |i: int| 0u8,
                ) + old(self).mem@
            },
            // growth is monotone: the backed range never shrinks
            final(self).start <= old(self).start,
            final(self).usage >= old(self).usage,
    {
        let page: u64 = addr / PAGE_SIZE;
        if page >= self.end {
            // Growth is strictly downward: a fault above the tracked top
            // would need an extent past the top, which cannot be granted.
            return Err(StackError::Overflow);
        }
        if page >= self.start {
            // Already backed.
            return Ok(());
        }
        proof {
            lemma_page_in_window(self.start, self.end, addr);
        }
        let added: u64 = self.start - page;
        let mut grown = zero_bytes(added * PAGE_SIZE);
        grown.append(&mut self.mem);
        self.mem = grown;
        self.start = page;
        self.usage = self.usage + added;
        Ok(())
    }

    /// Handle a page fault at `addr`: refused when the address is outside
    /// this stack's window, otherwise handled exactly as `grow_stack` says.
    pub fn handle_page_fault(&mut self, addr: u64) -> (r: bool)
        requires
            old(self).wf(),
        ensures
            final(self).wf(),
            !old(self).on_stack_spec(addr) ==> r == false && *final(self) == *old(self),
            old(self).on_stack_spec(addr) ==> {
                &&& r == (page_of(addr) < old(self).end)
                &&& (!r ==> *final(self) == *old(self))
            },
            final(self).end == old(self).end,
            final(self).start <= old(self).start,
            window_of((final(self).start * PAGE_SIZE) as u64) == window_of(
                (old(self).start * PAGE_SIZE) as u64,
            ),
            old(self).on_stack_spec(addr) && page_of(addr) < old(self).start
                ==> final(self).start == page_of(addr),
    {
        if !self.is_on_stack(addr) {
            return false;
        }
        match self.grow_stack(addr) {
            Ok(_) => true,
            Err(_) => false,
        }
    }

    /// Bytes of memory this stack has backed.
    pub fn memory_usage(&self) -> (r: u64)
        requires
            self.wf(),
        ensures
            r == self.usage * PAGE_SIZE,
    {
        self.usage * PAGE_SIZE
    }

    /// The address one past the top of the backed range.
    pub fn stack_top(&self) -> (r: u64)
        requires
            self.wf(),
        ensures
            r == self.top_addr(),
    {
        self.end * PAGE_SIZE
    }

    /// The lowest backed address.
    pub fn stack_bot(&self) -> (r: u64)
        requires
            self.wf(),
        ensures
            r == self.bot_addr(),
    {
        self.start * PAGE_SIZE
    }

    /// Read the backed byte at `offset` from the stack bottom.
    pub fn read_byte(&self, offset: usize) -> (r: u8)
        requires
            self.wf(),
            offset < self.mem@.len(),
        ensures
            r == self.mem@[offset as int],
    {
        self.mem[offset]
    }

    /// Write the backed byte at `offset` from the stack bottom.
    pub fn write_byte(&mut self, offset: usize, value: u8)
        requires
            old(self).wf(),
            offset < old(self).mem@.len(),
        ensures
            final(self).wf(),
            final(self).mem@ == old(self).mem@.update(offset as int, value),
            *final(self) == (Stack { mem: final(self).mem, ..*old(self) }),
    {
        self.mem.set(offset, value);
    }

    /// Copy this stack for a fork: probe downward, starting
    /// `offset_count` windows below this stack's, for a window whose base is
    /// not in `occupied`, and place a byte-for-byte copy of the backed range
    /// at the same in-window position there. Returns `None` when the probe
    /// runs out of address space.
    pub fn fork(&self, offset_count: u64, occupied: &Vec<u64>) -> (r: Option<Stack>)
        requires
            self.wf(),
            self.usage >= 1,
            offset_count >= 1,
        ensures
            match r {
                Option::Some(child) => {
                    &&& child.wf()
                    &&& child.usage == self.usage
                    &&& child.mem@ == self.mem@
                    &&& child.start < self.start
                    &&& (self.start - child.start) % (STACK_MAX_PAGES as int) == 0
                    &&& !occupied@.contains(
                        ((window_of((child.start * PAGE_SIZE) as u64) * STACK_MAX_SIZE)) as u64,
                    )
                },
                Option::None => true,
            },
    {
        if offset_count > u64::MAX / STACK_MAX_SIZE {
            return None;
        }
        let offset: u64 = offset_count * STACK_MAX_SIZE;
        if self.start * PAGE_SIZE < offset {
            return None;
        }
        let mut candidate_bot: u64 = self.start * PAGE_SIZE - offset;
        loop
            invariant
                self.wf(),
                self.usage >= 1,
                candidate_bot % PAGE_SIZE == 0,
                candidate_bot < self.start * PAGE_SIZE,
                (self.start * PAGE_SIZE - candidate_bot) % (STACK_MAX_SIZE as int) == 0,
            decreases candidate_bot,
        {
            let window_base: u64 = (candidate_bot / STACK_MAX_SIZE) * STACK_MAX_SIZE;
            if !contains_u64(occupied, window_base) {
                let start: u64 = candidate_bot / PAGE_SIZE;
                proof {
                    lemma_fork_window(self.start, self.end, candidate_bot);
                }
                let mut mem: Vec<u8> = Vec::new();
                let mut i: usize = 0;
                while i < self.mem.len()
                    invariant
                        i <= self.mem@.len(),
                        mem@ == self.mem@.subrange(0, i as int),
                    decreases self.mem@.len() - i,
                {
                    let b = self.mem[i];
                    mem.push(b);
                    i = i + 1;
                }
                proof {
                    assert(mem@ == self.mem@);
                }
                return Some(
                    Stack { start, end: start + self.usage, usage: self.usage, mem },
                );
            }
            if candidate_bot < STACK_MAX_SIZE {
                return None;
            }
            proof {
                vstd::arithmetic::div_mod::lemma_mod_add_multiples_vanish(
                    (self.start * PAGE_SIZE - candidate_bot) as int,
                    STACK_MAX_SIZE as int,
                );
            }
            candidate_bot = candidate_bot - STACK_MAX_SIZE;
        }
    }
}

/// A zero-filled byte vector of the given length.
fn zero_bytes(n: u64) -> (r: Vec<u8>)
    ensures
        r@ == Seq::<u8>::new(n as nat, |i: int| 0u8),
{
    let mut v: Vec<u8> = Vec::new();
    let mut i: u64 = 0;
    while i < n
        invariant
            i <= n,
            v@ == Seq::<u8>::new(i as nat, |j: int| 0u8),
        decreases n - i,
    {
        v.push(0u8);
        i = i + 1;
    }
    proof {
        assert(v@ =~= Seq::<u8>::new(n as nat, |i: int| 0u8));
    }
    v
}

/// Whether `v` holds `x`.
fn contains_u64(v: &Vec<u64>, x: u64) -> (r: bool)
    ensures
        r == v@.contains(x),
{
    let mut i: usize = 0;
    while i < v.len()
        invariant
            i <= v@.len(),
            forall|j: int| 0 <= j < i ==> v@[j] != x,
        decreases v@.len() - i,
    {
        if v[i] == x {
            return true;
        }
        i = i + 1;
    }
    false
}

/// A page inside the window of a well-formed stack keeps the range inside
/// that window when the range is extended down to it.
proof fn lemma_page_in_window(start: u64, end: u64, addr: u64)
    requires
        start <= end < PAGE_LIMIT,
        end - start <= STACK_MAX_PAGES,
        end * PAGE_SIZE <= (window_of((start * PAGE_SIZE) as u64) + 1) * STACK_MAX_SIZE,
        window_of(addr) == window_of((start * PAGE_SIZE) as u64),
        page_of(addr) < start,
    ensures
        window_of(((page_of(addr)) * PAGE_SIZE) as u64) == window_of(
            (start * PAGE_SIZE) as u64,
        ),
        end - page_of(addr) <= STACK_MAX_PAGES,
{
    let p = page_of(addr);
    let w = window_of((start * PAGE_SIZE) as u64);
    // addr lies in [w * SIZE, (w+1) * SIZE), and p * PAGE_SIZE <= addr < (p+1) * PAGE_SIZE
    vstd::arithmetic::div_mod::lemma_fundamental_div_mod(addr as int, STACK_MAX_SIZE as int);
    vstd::arithmetic::div_mod::lemma_fundamental_div_mod(addr as int, PAGE_SIZE as int);
    vstd::arithmetic::div_mod::lemma_mod_bound(addr as int, STACK_MAX_SIZE as int);
    vstd::arithmetic::div_mod::lemma_mod_bound(addr as int, PAGE_SIZE as int);
    // so w * SIZE <= p * PAGE_SIZE <= addr, hence window_of(p * PAGE_SIZE) == w
    assert(w * STACK_MAX_SIZE <= addr as int);
    assert(p * PAGE_SIZE <= addr as int && addr < (p + 1) * PAGE_SIZE);
    // w * SIZE is a multiple of PAGE_SIZE, and p * PAGE_SIZE >= w * SIZE
    assert(p * PAGE_SIZE >= w * STACK_MAX_SIZE) by {
        // p >= (w * SIZE) / PAGE_SIZE since addr >= w * SIZE and both multiples
        vstd::arithmetic::div_mod::lemma_div_is_ordered(
            (w * STACK_MAX_SIZE) as int,
            addr as int,
            PAGE_SIZE as int,
        );
        assert((w * STACK_MAX_SIZE) / (PAGE_SIZE as int) == w * (STACK_MAX_PAGES as int)) by {
            vstd::arithmetic::div_mod::lemma_div_multiples_vanish(
                w * (STACK_MAX_PAGES as int),
                PAGE_SIZE as int,
            );
        }
        assert(p >= w * (STACK_MAX_PAGES as int));
        vstd::arithmetic::mul::lemma_mul_inequality(
            w * (STACK_MAX_PAGES as int),
            p,
            PAGE_SIZE as int,
        );
        vstd::arithmetic::mul::lemma_mul_is_associative(w, STACK_MAX_PAGES as int, PAGE_SIZE as int);
    }
    vstd::arithmetic::div_mod::lemma_div_is_ordered(
        (w * STACK_MAX_SIZE) as int,
        (p * PAGE_SIZE) as int,
        STACK_MAX_SIZE as int,
    );
    vstd::arithmetic::div_mod::lemma_div_multiples_vanish(w, STACK_MAX_SIZE as int);
    vstd::arithmetic::div_mod::lemma_div_is_ordered(
        (p * PAGE_SIZE) as int,
        addr as int,
        STACK_MAX_SIZE as int,
    );
    assert(window_of(((p * PAGE_SIZE) as u64)) == w);
    // extent bound: end * PAGE <= (w+1) * SIZE and p * PAGE >= w * SIZE
    assert((end - p) * PAGE_SIZE <= STACK_MAX_SIZE) by {
        assert(p * PAGE_SIZE >= w * STACK_MAX_SIZE);
        assert((start * PAGE_SIZE) as u64 == start * PAGE_SIZE);
        assert(end * PAGE_SIZE <= (w + 1) * STACK_MAX_SIZE);
        vstd::arithmetic::mul::lemma_mul_is_distributive_add_other_way(
            STACK_MAX_SIZE as int,
            w,
            1,
        );
        vstd::arithmetic::mul::lemma_mul_basics(STACK_MAX_SIZE as int);
        assert((w + 1) * STACK_MAX_SIZE == w * STACK_MAX_SIZE + STACK_MAX_SIZE);
        vstd::arithmetic::mul::lemma_mul_is_distributive_sub_other_way(
            PAGE_SIZE as int,
            end as int,
            p,
        );
        assert((end - p) * PAGE_SIZE == end * PAGE_SIZE - p * PAGE_SIZE);
    }
    vstd::arithmetic::div_mod::lemma_div_is_ordered(
        ((end - p) * PAGE_SIZE) as int,
        STACK_MAX_SIZE as int,
        PAGE_SIZE as int,
    );
    vstd::arithmetic::div_mod::lemma_div_multiples_vanish(end - p, PAGE_SIZE as int);
    vstd::arithmetic::div_mod::lemma_div_multiples_vanish(STACK_MAX_PAGES as int, PAGE_SIZE as int);
}

/// Dropping a candidate bottom by whole windows keeps it page-aligned and in
/// a window whose relative position matches, so the copied range stays in
/// one window.
proof fn lemma_fork_window(start: u64, end: u64, candidate_bot: u64)
    requires
        start <= end < PAGE_LIMIT,
        end - start <= STACK_MAX_PAGES,
        end * PAGE_SIZE <= (window_of((start * PAGE_SIZE) as u64) + 1) * STACK_MAX_SIZE,
        candidate_bot % PAGE_SIZE == 0,
        candidate_bot < start * PAGE_SIZE,
        (start * PAGE_SIZE - candidate_bot) % (STACK_MAX_SIZE as int) == 0,
    ensures
        candidate_bot as int / PAGE_SIZE as int == candidate_bot / PAGE_SIZE,
        (candidate_bot / PAGE_SIZE) + (end - start) < PAGE_LIMIT,
        ((candidate_bot / PAGE_SIZE) + (end - start)) * PAGE_SIZE <= (window_of(
            (((candidate_bot / PAGE_SIZE)) * PAGE_SIZE) as u64,
        ) + 1) * STACK_MAX_SIZE,
        start as int - candidate_bot as int / PAGE_SIZE as int > 0,
        (start as int - candidate_bot as int / PAGE_SIZE as int) % (STACK_MAX_PAGES as int) == 0,
        window_of((((candidate_bot / PAGE_SIZE)) * PAGE_SIZE) as u64) == window_of(candidate_bot),
        ((candidate_bot / PAGE_SIZE) * PAGE_SIZE) == candidate_bot,
{
    vstd::arithmetic::div_mod::lemma_fundamental_div_mod(candidate_bot as int, PAGE_SIZE as int);
    let k = (start * PAGE_SIZE - candidate_bot) / (STACK_MAX_SIZE as int);
    vstd::arithmetic::div_mod::lemma_fundamental_div_mod(
        (start * PAGE_SIZE - candidate_bot) as int,
        STACK_MAX_SIZE as int,
    );
    assert(start * PAGE_SIZE - candidate_bot == k * STACK_MAX_SIZE);
    let cp = candidate_bot as int / PAGE_SIZE as int;
    assert(candidate_bot == cp * PAGE_SIZE);
    // cp == start - k * STACK_MAX_PAGES
    assert(cp * PAGE_SIZE == start * PAGE_SIZE - k * (STACK_MAX_PAGES as int) * PAGE_SIZE) by {
        vstd::arithmetic::mul::lemma_mul_is_associative(k, STACK_MAX_PAGES as int, PAGE_SIZE as int);
    }
    assert(cp == start - k * (STACK_MAX_PAGES as int)) by {
        vstd::arithmetic::mul::lemma_mul_is_distributive_sub_other_way(
            PAGE_SIZE as int,
            start as int,
            k * (STACK_MAX_PAGES as int),
        );
        vstd::arithmetic::mul::lemma_mul_equality_converse(
            PAGE_SIZE as int,
            cp,
            start - k * (STACK_MAX_PAGES as int),
        );
    }
    assert(k >= 1) by {
        vstd::arithmetic::mul::lemma_mul_ordering(k, STACK_MAX_SIZE as int);
    }
    // windows shift by k
    let wsrc = window_of((start * PAGE_SIZE) as u64);
    vstd::arithmetic::div_mod::lemma_hoist_over_denominator(
        candidate_bot as int,
        k,
        STACK_MAX_SIZE as nat,
    );
    assert(window_of(candidate_bot) == wsrc - k);
    // end of copy: (cp + (end - start)) * PAGE_SIZE == end * PAGE_SIZE - k * SIZE
    assert((cp + (end - start)) * PAGE_SIZE == end * PAGE_SIZE - k * (STACK_MAX_SIZE as int)) by {
        vstd::arithmetic::mul::lemma_mul_is_distributive_add_other_way(
            PAGE_SIZE as int,
            cp,
            end - start,
        );
        vstd::arithmetic::mul::lemma_mul_is_associative(k, STACK_MAX_PAGES as int, PAGE_SIZE as int);
    }
    assert((wsrc + 1) * STACK_MAX_SIZE - k * (STACK_MAX_SIZE as int) == (wsrc - k + 1)
        * STACK_MAX_SIZE) by {
        vstd::arithmetic::mul::lemma_mul_is_distributive_sub_other_way(
            STACK_MAX_SIZE as int,
            wsrc + 1,
            k,
        );
    }
}


/// Stack growth over a run of faults: faulting addresses inside the
/// stack's window, strictly decreasing and starting below the backed top,
/// all succeed — each one's page stays below the top the stack keeps
/// throughout, which is exactly the success condition `grow_stack`'s
/// contract states — while the range only ever extends downward, within
/// the window, and so never beyond the maximum page count that
/// well-formedness bounds. A fault outside the window is rejected with
/// nothing changed, whatever the remaining capacity, as
/// `handle_page_fault`'s contract states.
pub proof fn lemma_stack_growth(s: Stack, addrs: Seq<u64>)
    requires
        s.wf(),
        forall|k: int| 0 <= k < addrs.len() ==> s.on_stack_spec(#[trigger] addrs[k]),
        forall|k: int, l: int|
            0 <= k < l < addrs.len() ==> (#[trigger] addrs[k]) > (#[trigger] addrs[l]),
        addrs.len() > 0 ==> page_of(addrs[0]) < s.end,
    ensures
        forall|k: int| 0 <= k < addrs.len() ==> page_of(#[trigger] addrs[k]) < s.end,
        forall|k: int|
            0 <= k < addrs.len() ==> s.end - page_of(#[trigger] addrs[k]) <= STACK_MAX_PAGES,
{
    assert forall|k: int| 0 <= k < addrs.len() implies page_of(#[trigger] addrs[k]) < s.end by {
        if k > 0 {
            assert(addrs[0] > addrs[k]);
            vstd::arithmetic::div_mod::lemma_div_is_ordered(
                addrs[k] as int,
                addrs[0] as int,
                PAGE_SIZE as int,
            );
        }
    }
    assert forall|k: int|
        0 <= k < addrs.len() implies s.end - page_of(#[trigger] addrs[k]) <= STACK_MAX_PAGES by {
        lemma_window_floor(s.start, s.end, addrs[k]);
    }
}

/// An address in a well-formed stack's window lies no more than the
/// maximum stack size below the backed top.
proof fn lemma_window_floor(start: u64, end: u64, addr: u64)
    requires
        start <= end < PAGE_LIMIT,
        end - start <= STACK_MAX_PAGES,
        end * PAGE_SIZE <= (window_of((start * PAGE_SIZE) as u64) + 1) * STACK_MAX_SIZE,
        window_of(addr) == window_of((start * PAGE_SIZE) as u64),
    ensures
        end - page_of(addr) <= STACK_MAX_PAGES,
{
    let w = window_of((start * PAGE_SIZE) as u64);
    vstd::arithmetic::div_mod::lemma_fundamental_div_mod(addr as int, STACK_MAX_SIZE as int);
    vstd::arithmetic::div_mod::lemma_mod_bound(addr as int, STACK_MAX_SIZE as int);
    assert(w * STACK_MAX_SIZE <= addr as int);
    vstd::arithmetic::div_mod::lemma_fundamental_div_mod(addr as int, PAGE_SIZE as int);
    vstd::arithmetic::div_mod::lemma_mod_bound(addr as int, PAGE_SIZE as int);
    // page_of(addr) >= w * STACK_MAX_PAGES
    vstd::arithmetic::div_mod::lemma_div_is_ordered(
        (w * STACK_MAX_SIZE) as int,
        addr as int,
        PAGE_SIZE as int,
    );
    assert((w * STACK_MAX_SIZE) / (PAGE_SIZE as int) == w * (STACK_MAX_PAGES as int)) by {
        vstd::arithmetic::mul::lemma_mul_is_associative(w, STACK_MAX_PAGES as int, PAGE_SIZE as int);
        vstd::arithmetic::div_mod::lemma_div_multiples_vanish(
            w * (STACK_MAX_PAGES as int),
            PAGE_SIZE as int,
        );
    }
    // end <= (w + 1) * STACK_MAX_PAGES
    assert(end <= (w + 1) * (STACK_MAX_PAGES as int)) by {
        vstd::arithmetic::div_mod::lemma_div_is_ordered(
            (end * PAGE_SIZE) as int,
            ((w + 1) * STACK_MAX_SIZE) as int,
            PAGE_SIZE as int,
        );
        vstd::arithmetic::div_mod::lemma_div_multiples_vanish(end as int, PAGE_SIZE as int);
        vstd::arithmetic::mul::lemma_mul_is_associative(
            w + 1,
            STACK_MAX_PAGES as int,
            PAGE_SIZE as int,
        );
        vstd::arithmetic::div_mod::lemma_div_multiples_vanish(
            (w + 1) * (STACK_MAX_PAGES as int),
            PAGE_SIZE as int,
        );
    }
    assert((w + 1) * (STACK_MAX_PAGES as int) == w * (STACK_MAX_PAGES as int) + STACK_MAX_PAGES)
        by {
        vstd::arithmetic::mul::lemma_mul_is_distributive_add_other_way(
            STACK_MAX_PAGES as int,
            w,
            1,
        );
        vstd::arithmetic::mul::lemma_mul_basics(STACK_MAX_PAGES as int);
    }
}

/// Fork isolation: a forked stack's bytes start out equal to its parent's,
/// and the two are separate — writing any offset of the child's copy
/// changes exactly that offset of the copy and no offset of the parent's
/// bytes, and the other way round.
pub proof fn lemma_fork_isolation(parent: Seq<u8>, child: Seq<u8>, offset: int, value: u8)
    requires
        child == parent,
        0 <= offset < child.len(),
    ensures
        child.update(offset, value)[offset] == value,
        forall|i: int|
            0 <= i < parent.len() && i != offset ==> child.update(offset, value)[i] == parent[i],
        parent.update(offset, value)[offset] == value,
        forall|i: int|
            0 <= i < child.len() && i != offset ==> parent.update(offset, value)[i] == child[i],
{
}

} // verus!
