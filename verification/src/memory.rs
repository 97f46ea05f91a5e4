//! Heap and stack bookkeeping: the arithmetic that decides which pages a
//! process's heap and stack take, and what to map or unmap when they move.
use vstd::prelude::*;

verus! {

pub const PAGE_SIZE: u64 = 4096;

/// The first byte of the user heap.
pub const HEAP_START: u64 = 0x2000_0000_0000;

/// How many pages the user heap may take.
pub const HEAP_PAGES: u64 = 0x100000;

/// The bytes the user heap may take.
pub const HEAP_SIZE: u64 = 0x1_0000_0000;

/// The highest address the heap's end may be moved to.
pub const HEAP_END: u64 = 0x2000_ffff_fff8;

/// `addr` rounded up to a page boundary.
pub open spec fn page_ceil(addr: int) -> int {
    if addr % 4096 == 0 {
        addr
    } else {
        addr - addr % 4096 + 4096
    }
}

/// Rounds `addr` up to a page boundary.
pub fn align_up_page(addr: u64) -> (r: u64)
    requires
        addr + 4095 <= u64::MAX,
    ensures
        r == page_ceil(addr as int),
        r % 4096 == 0,
        addr <= r < addr + 4096,
{
    let r = (addr + 4095) & !4095u64;
    assert(r == page_ceil(addr as int)) by (bit_vector)
        requires
            addr + 4095 <= u64::MAX,
            r == ((addr + 4095) as u64) & !4095u64,
    ;
    r
}

/// What moving the heap's end asks the page tables for.
#[derive(Clone, Copy, Debug, PartialEq, Eq, Structural)]
pub enum BrkPlan {
    /// Only asking where the end is: it is at `end`.
    Query { end: u64 },
    /// The new end is outside the heap: refused.
    Refuse,
    /// Map `pages` pages from `start`, then the end is `end`.
    Grow { start: u64, pages: u64, end: u64 },
    /// Unmap `pages` pages from `start`, then the end is `end`.
    Shrink { start: u64, pages: u64, end: u64 },
    /// No page changes; the end becomes `end`.
    Move { end: u64 },
}

/// What `brk` does for a heap from `base` whose end is `current_end`,
/// asked to move the end to `new_end` (or only asked where it is).
pub open spec fn brk_plan_of(base: u64, current_end: u64, new_end: Option<u64>) -> BrkPlan {
    match new_end {
        None => BrkPlan::Query { end: current_end },
        Some(req) => if !(base <= req && req <= HEAP_END) {
            BrkPlan::Refuse
        } else {
            let cur = page_ceil(current_end as int);
            let want = page_ceil(req as int);
            if want > cur {
                BrkPlan::Grow { start: cur as u64, pages: ((want - cur) / 4096) as u64, end: req }
            } else if want < cur {
                BrkPlan::Shrink { start: want as u64, pages: ((cur - want) / 4096) as u64, end: req }
            } else {
                BrkPlan::Move { end: req }
            }
        },
    }
}

/// Decides what moving the heap's end takes: the pages to map or unmap,
/// and the new end.
pub fn plan_brk(base: u64, current_end: u64, new_end: Option<u64>) -> (r: BrkPlan)
    requires
        current_end + 4095 <= u64::MAX,
    ensures
        r == brk_plan_of(base, current_end, new_end),
{
    let req = match new_end {
        None => return BrkPlan::Query { end: current_end },
        Some(req) => req,
    };
    if !(base <= req && req <= HEAP_END) {
        return BrkPlan::Refuse;
    }
    let current_aligned = align_up_page(current_end);
    let requested_aligned = align_up_page(req);
    if requested_aligned > current_aligned {
        BrkPlan::Grow {
            start: current_aligned,
            pages: (requested_aligned - current_aligned) / 4096,
            end: req,
        }
    } else if requested_aligned < current_aligned {
        BrkPlan::Shrink {
            start: requested_aligned,
            pages: (current_aligned - requested_aligned) / 4096,
            end: req,
        }
    } else {
        BrkPlan::Move { end: req }
    }
}

/// Growing the heap and shrinking it back to where it was unmaps exactly
/// the pages that growing mapped.
pub proof fn law_brk_grow_then_shrink(base: u64, end: u64, new_end: u64)
    requires
        base <= end <= HEAP_END,
        base <= new_end <= HEAP_END,
        brk_plan_of(base, end, Some(new_end)) is Grow,
    ensures
        brk_plan_of(base, new_end, Some(end)) matches BrkPlan::Shrink { start, pages, end: e } && e == end
            && (brk_plan_of(base, end, Some(new_end)) matches BrkPlan::Grow { start: s2, pages: p2, .. }
            && s2 == start && p2 == pages),
{
}

/// The pages that releasing a heap from `base` to `end` unmaps: how many,
/// from `base` (none when the end, rounded up to a page, is the base).
pub fn heap_release_pages(base: u64, end: u64) -> (r: u64)
    requires
        base <= end,
        end + 4095 <= u64::MAX,
        base % 4096 == 0,
    ensures
        r == (page_ceil(end as int) - base) / 4096,
{
    let aligned_end = align_up_page(end);
    if aligned_end == base {
        return 0;
    }
    (aligned_end - base) / 4096
}

/// The bytes a heap from `base` to `end` takes.
pub fn heap_usage(base: u64, end: u64) -> (r: u64)
    requires
        base <= end,
    ensures
        r == end - base,
{
    end - base
}

/// The bytes the user-space allocator starts with.
pub const HEAP_INIT_SIZE: usize = 8184;

/// The least the user-space allocator grows by.
pub const HEAP_GROW_SIZE: usize = 65536;

/// The most bytes the user-space allocator takes.
pub const HEAP_MAX_SIZE: usize = 8388608;

/// Rounds `value` up to a page boundary.
pub fn align_up(value: usize) -> (r: usize)
    requires
        value + 4095 <= usize::MAX,
    ensures
        r == page_ceil(value as int),
{
    align_up_page(value as u64) as usize
}

/// How much the user-space allocator grows a heap from `heap_start` to
/// `heap_end` for an allocation of `size` bytes aligned to `align`: at
/// least the allocation and at least the growth step, in whole pages,
/// never past the maximum; `None` when the heap is unset or full.
pub open spec fn heap_growth_of(heap_start: usize, heap_end: usize, size: usize, align: usize) -> Option<
    usize,
> {
    if heap_start == 0 || heap_end <= heap_start {
        None
    } else if heap_end - heap_start >= HEAP_MAX_SIZE {
        None
    } else {
        let m1 = if size >= align { size as int } else { align as int };
        let required = if m1 >= HEAP_GROW_SIZE { m1 } else { HEAP_GROW_SIZE as int };
        let grow = page_ceil(required);
        let room = HEAP_MAX_SIZE - (heap_end - heap_start);
        Some((if grow <= room { grow } else { room }) as usize)
    }
}

/// Decides how much the user-space allocator grows its heap for an
/// allocation it could not serve.
pub fn heap_growth(heap_start: usize, heap_end: usize, size: usize, align: usize) -> (r: Option<usize>)
    requires
        size + 4095 <= usize::MAX,
        align + 4095 <= usize::MAX,
    ensures
        r == heap_growth_of(heap_start, heap_end, size, align),
{
    if heap_start == 0 || heap_end <= heap_start {
        return None;
    }
    let used_size = heap_end - heap_start;
    if used_size >= HEAP_MAX_SIZE {
        return None;
    }
    let m1 = if size >= align { size } else { align };
    let required = if m1 >= HEAP_GROW_SIZE { m1 } else { HEAP_GROW_SIZE };
    let grow = align_up(required);
    let room = HEAP_MAX_SIZE - used_size;
    Some(if grow <= room { grow } else { room })
}

/// Where the user-space allocator's first heap ends, for a heap starting at
/// `heap_start`.
pub fn initial_heap_end(heap_start: usize) -> (r: usize)
    requires
        heap_start + HEAP_INIT_SIZE <= usize::MAX,
    ensures
        r == heap_start + HEAP_INIT_SIZE,
{
    heap_start + HEAP_INIT_SIZE
}

/// The start of the page that holds `addr`.
pub open spec fn page_floor(addr: int) -> int {
    addr - addr % 4096
}

/// An address that the processor accepts: bits 48 to 63 repeat bit 47.
pub open spec fn canonical(addr: u64) -> bool {
    addr < 0x0000_8000_0000_0000 || addr >= 0xffff_8000_0000_0000
}

fn page_start(addr: u64) -> (r: u64)
    ensures
        r == page_floor(addr as int),
{
    addr - addr % 4096
}

/// Where a process's user stacks go.
#[derive(Clone, Copy, Debug, PartialEq, Eq, Structural)]
pub struct StackConsts {
    pub stack_max_addr: u64,
    pub stack_max_pages: u64,
    pub stack_max_size: u64,
    pub stack_start_mask: u64,
    pub stack_def_bot: u64,
    pub stack_def_page: u64,
    pub stack_def_size: u64,
    pub stack_init_bot: u64,
    pub stack_init_top: u64,
    pub stack_init_top_page: u64,
}

/// Where the kernel's stack goes.
#[derive(Clone, Copy, Debug, PartialEq, Eq, Structural)]
pub struct KernelStackConsts {
    pub kstack_max_addr: u64,
    pub kstack_def_bot: u64,
    pub kstack_def_page: u64,
    pub kstack_def_size: u64,
    pub kstack_init_bot: u64,
    pub kstack_init_top: u64,
    pub kstack_init_page: u64,
    pub kstack_init_top_page: u64,
}

/// The user stack layout for stacks that end at `stack_max_addr`, take at
/// most `stack_max_pages` pages and start with `stack_default_page`.
pub fn stack_consts(stack_max_addr: u64, stack_max_pages: u64, stack_default_page: u64) -> (r: StackConsts)
    requires
        1 <= stack_max_pages,
        stack_max_pages * 4096 <= stack_max_addr,
        stack_default_page * 4096 <= stack_max_addr,
        8 <= stack_max_addr,
        canonical((stack_max_addr - 8) as u64),
    ensures
        r.stack_max_addr == stack_max_addr,
        r.stack_max_pages == stack_max_pages,
        r.stack_max_size == stack_max_pages * 4096,
        r.stack_start_mask == !((stack_max_pages * 4096 - 1) as u64),
        r.stack_def_bot == stack_max_addr - stack_max_pages * 4096,
        r.stack_def_page == stack_default_page,
        r.stack_def_size == stack_default_page * 4096,
        r.stack_init_bot == stack_max_addr - stack_default_page * 4096,
        r.stack_init_top == stack_max_addr - 8,
        r.stack_init_top_page == page_floor(stack_max_addr - 8),
{
    let stack_max_size = stack_max_pages * 4096;
    let stack_start_mask = !(stack_max_size - 1);
    let stack_def_bot = stack_max_addr - stack_max_size;
    let stack_def_size = stack_default_page * 4096;
    let stack_init_bot = stack_max_addr - stack_def_size;
    let stack_init_top = stack_max_addr - 8;
    let stack_init_top_page = page_start(stack_init_top);
    StackConsts {
        stack_max_addr,
        stack_max_pages,
        stack_max_size,
        stack_start_mask,
        stack_def_bot,
        stack_def_page: stack_default_page,
        stack_def_size,
        stack_init_bot,
        stack_init_top,
        stack_init_top_page,
    }
}

/// The kernel stack layout for a stack that ends at `kstack_max_addr` and
/// starts with `kernel_default_page` pages, with user stacks laid out as
/// `user`.
pub fn kernel_stack_consts(user: &StackConsts, kstack_max_addr: u64, kernel_default_page: u64) -> (r:
    KernelStackConsts)
    requires
        user.stack_max_size <= kstack_max_addr,
        kernel_default_page * 4096 <= kstack_max_addr,
        8 <= kstack_max_addr,
        canonical((kstack_max_addr - 8) as u64),
        canonical((kstack_max_addr - kernel_default_page * 4096) as u64),
    ensures
        r.kstack_max_addr == kstack_max_addr,
        r.kstack_def_bot == kstack_max_addr - user.stack_max_size,
        r.kstack_def_page == kernel_default_page,
        r.kstack_def_size == kernel_default_page * 4096,
        r.kstack_init_bot == kstack_max_addr - kernel_default_page * 4096,
        r.kstack_init_top == kstack_max_addr - 8,
        r.kstack_init_page == page_floor(kstack_max_addr - kernel_default_page * 4096),
        r.kstack_init_top_page == page_floor(kstack_max_addr - 8),
{
    let kstack_def_bot = kstack_max_addr - user.stack_max_size;
    let kstack_def_size = kernel_default_page * 4096;
    let kstack_init_bot = kstack_max_addr - kstack_def_size;
    let kstack_init_top = kstack_max_addr - 8;
    KernelStackConsts {
        kstack_max_addr,
        kstack_def_bot,
        kstack_def_page: kernel_default_page,
        kstack_def_size,
        kstack_init_bot,
        kstack_init_top,
        kstack_init_page: page_start(kstack_init_bot),
        kstack_init_top_page: page_start(kstack_init_top),
    }
}

/// Whether `addr` is in the same stack slot as a stack whose lowest page
/// starts at `stack_bot`: they agree on the bits that `mask` keeps.
pub fn is_on_stack(addr: u64, stack_bot: u64, mask: u64) -> (r: bool)
    ensures
        r == (addr & mask == stack_bot & mask),
{
    addr & mask == stack_bot & mask
}

/// Why a stack cannot grow down to a faulting address.
#[derive(Clone, Copy, Debug, PartialEq, Eq, Structural)]
pub enum StackGrowError {
    /// The faulting page is already part of the stack.
    PageAlreadyMapped,
    /// Growing would take the stack past its page limit.
    TooLarge,
}

/// How a stack grows to cover a faulting address: map `pages` pages from
/// `start`, after which the stack uses `usage` pages.
#[derive(Clone, Copy, Debug, PartialEq, Eq, Structural)]
pub struct StackGrowth {
    pub start: u64,
    pub pages: u64,
    pub usage: u64,
}

/// Decides how a stack whose lowest page starts at `bottom` and which uses
/// `usage` pages grows down to cover `addr`, within `max_pages` pages.
pub fn plan_stack_growth(bottom: u64, usage: u64, addr: u64, max_pages: u64) -> (r: Result<
    StackGrowth,
    StackGrowError,
>)
    requires
        page_floor(addr as int) < bottom ==> usage + (bottom - page_floor(addr as int)) / 4096 <= u64::MAX,
    ensures
        page_floor(addr as int) >= bottom ==> r == Err::<StackGrowth, StackGrowError>(
            StackGrowError::PageAlreadyMapped,
        ),
        page_floor(addr as int) < bottom && usage + (bottom - page_floor(addr as int)) / 4096 > max_pages
            ==> r == Err::<StackGrowth, StackGrowError>(StackGrowError::TooLarge),
        page_floor(addr as int) < bottom && usage + (bottom - page_floor(addr as int)) / 4096 <= max_pages
            ==> r == Ok::<StackGrowth, StackGrowError>(
            StackGrowth {
                start: page_floor(addr as int) as u64,
                pages: ((bottom - page_floor(addr as int)) / 4096) as u64,
                usage: (usage + (bottom - page_floor(addr as int)) / 4096) as u64,
            },
        ),
{
    let fault_page = page_start(addr);
    if fault_page >= bottom {
        return Err(StackGrowError::PageAlreadyMapped);
    }
    let new_page_count = (bottom - fault_page) / 4096;
    let new_usage = usage + new_page_count;
    if new_usage > max_pages {
        return Err(StackGrowError::TooLarge);
    }
    Ok(StackGrowth { start: fault_page, pages: new_page_count, usage: new_usage })
}

/// The stack a process starts with: its lowest and its top address.
#[derive(Clone, Copy, Debug, PartialEq, Eq, Structural)]
pub struct ProcStack {
    pub bot: u64,
    pub top: u64,
}

/// Where process `pid` starts its stack: the first user process (2; the
/// kernel is 1) at the initial stack, each later one `pid - 2` stack slots
/// lower.
pub open spec fn proc_stack_of(consts: StackConsts, pid: int) -> ProcStack {
    ProcStack {
        bot: (consts.stack_init_bot - (pid - 2) * consts.stack_max_size) as u64,
        top: (consts.stack_init_top - (pid - 2) * consts.stack_max_size) as u64,
    }
}

/// The stack of process `pid`, laid out by `consts`.
pub fn init_proc_stack(consts: &StackConsts, pid: u16) -> (r: ProcStack)
    requires
        pid >= 2,
        (pid - 2) * consts.stack_max_size <= consts.stack_init_bot,
        (pid - 2) * consts.stack_max_size <= consts.stack_init_top,
        canonical((consts.stack_init_top - (pid - 2) * consts.stack_max_size) as u64),
    ensures
        r == proc_stack_of(*consts, pid as int),
{
    let offset = (pid as u64 - 2) * consts.stack_max_size;
    ProcStack { bot: consts.stack_init_bot - offset, top: consts.stack_init_top - offset }
}

/// The stack slot of process `pid`: the `stack_max_size` bytes that end
/// `pid - 2` slots below the top of the stack area.
pub open spec fn in_stack_slot(consts: StackConsts, pid: int, addr: int) -> bool {
    consts.stack_max_addr - (pid - 1) * consts.stack_max_size <= addr < consts.stack_max_addr - (pid - 2)
        * consts.stack_max_size
}

/// Every process's starting stack lies in its own stack slot, so the stacks
/// of two different processes never overlap.
pub proof fn law_proc_stacks_disjoint(consts: StackConsts, p: int, q: int)
    requires
        consts.stack_init_bot == consts.stack_max_addr - consts.stack_def_size,
        consts.stack_init_top == consts.stack_max_addr - 8,
        8 <= consts.stack_def_size <= consts.stack_max_size,
        2 <= p < q,
        (q - 2) * consts.stack_max_size <= consts.stack_init_bot,
    ensures
        in_stack_slot(consts, p, proc_stack_of(consts, p).bot as int),
        in_stack_slot(consts, p, proc_stack_of(consts, p).top as int),
        in_stack_slot(consts, q, proc_stack_of(consts, q).bot as int),
        in_stack_slot(consts, q, proc_stack_of(consts, q).top as int),
        proc_stack_of(consts, q).top < proc_stack_of(consts, p).bot,
{
    let m = consts.stack_max_size as int;
    assert((q - 2) * m - (p - 2) * m >= m && (p - 2) * m <= (q - 2) * m && (p - 1) * m == (p - 2) * m + m
        && (q - 1) * m == (q - 2) * m + m && (p - 2) * m >= 0) by (nonlinear_arith)
        requires
            2 <= p < q,
            m >= 0,
    ;
}

/// The registers a forked child starts with.
#[derive(Clone, Copy, Debug, PartialEq, Eq, Structural)]
pub struct ForkRegs {
    pub stack_pointer: u64,
    pub rbp: u64,
    pub rax: u64,
}

/// The child of a fork runs on its parent's stack contents copied
/// `child_pid - parent_pid` stack slots lower: its stack pointer, and its
/// frame pointer where that points into the parent's stack
/// `stack_start..stack_end`, move down by as many slots; it sees 0 as the
/// result of the fork.
pub fn fork_regs(
    parent_pid: u16,
    child_pid: u16,
    stack_max_size: u64,
    sp: u64,
    rbp: u64,
    stack_start: u64,
    stack_end: u64,
) -> (r: ForkRegs)
    requires
        parent_pid <= child_pid,
        (child_pid - parent_pid) * stack_max_size <= sp,
        canonical((sp - (child_pid - parent_pid) * stack_max_size) as u64),
        stack_start <= rbp < stack_end ==> (child_pid - parent_pid) * stack_max_size <= rbp,
    ensures
        r.stack_pointer == sp - (child_pid - parent_pid) * stack_max_size,
        r.rbp == if stack_start <= rbp < stack_end {
            rbp - (child_pid - parent_pid) * stack_max_size
        } else {
            rbp as int
        },
        r.rax == 0,
{
    let stack_offset_count = (child_pid - parent_pid) as u64;
    let stack_offset_bytes = stack_offset_count * stack_max_size;
    let child_rbp = if stack_start <= rbp && rbp < stack_end {
        rbp - stack_offset_bytes
    } else {
        rbp
    };
    ForkRegs { stack_pointer: sp - stack_offset_bytes, rbp: child_rbp, rax: 0 }
}

/// A forked child's stack pointer lies in the child's own stack slot when
/// its parent's lies in the parent's, so fork and the per-process stack
/// layout agree.
pub proof fn law_fork_stack_in_child_slot(consts: StackConsts, parent: int, child: int, sp: int)
    requires
        2 <= parent <= child,
        in_stack_slot(consts, parent, sp),
    ensures
        in_stack_slot(consts, child, sp - (child - parent) * consts.stack_max_size),
{
    let m = consts.stack_max_size as int;
    assert((child - parent) * m + (parent - 1) * m == (child - 1) * m && (child - parent) * m + (parent
        - 2) * m == (child - 2) * m) by (nonlinear_arith);
}

} // verus!
