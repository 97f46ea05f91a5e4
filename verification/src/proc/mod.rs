//! Processes: their numbers, their states, the timer tick count, and the
//! process manager.
use vstd::prelude::*;

pub mod manager;

use crate::proc::manager::{
    killed, lemma_killed_keeps_keys, next_switch, tick_queue, tick_switch, ticked, ProcInfo,
    ProcessManager,
};

verus! {

/// Where a process is in its life.
#[derive(Clone, Copy, Debug, PartialEq, Eq, Structural)]
pub enum ProgramStatus {
    Running,
    Ready,
    Blocked,
    Dead,
}

/// A process number.
#[derive(Clone, Copy, Debug, PartialEq, Eq, Structural)]
pub struct ProcessId(pub u16);

/// The process number of the kernel.
pub fn kernel_pid() -> (r: ProcessId)
    ensures
        r.0 == 1,
{
    ProcessId(1)
}

/// Hands out process numbers: 1, 2, 3, ... in turn.
pub struct PidCounter {
    pub last: u16,
}

impl PidCounter {
    /// A counter that has handed out no number yet.
    pub fn new() -> (r: Self)
        ensures
            r.last == 0,
    {
        PidCounter { last: 0 }
    }
}

impl ProcessId {
    /// A process number that `counter` has not handed out before: the one
    /// after the last.
    pub fn new(counter: &mut PidCounter) -> (r: ProcessId)
        requires
            old(counter).last < u16::MAX,
        ensures
            final(counter).last == old(counter).last + 1,
            r.0 == final(counter).last,
    {
        counter.last = counter.last + 1;
        ProcessId(counter.last)
    }

    /// The number as a `u16`.
    pub fn as_u16(&self) -> (r: u16)
        ensures
            r == self.0,
    {
        self.0
    }
}

/// Process numbers are never handed out twice: each new one is above every
/// one before it.
pub proof fn law_pids_increase(before: PidCounter, after: PidCounter, pid: ProcessId, earlier: ProcessId)
    requires
        after.last == before.last + 1,
        pid.0 == after.last,
        1 <= earlier.0 <= before.last,
    ensures
        pid.0 > earlier.0,
        pid != earlier,
{
}

/// The number of timer ticks since boot.
pub struct ClockCounter {
    pub ticks: u64,
}

impl ClockCounter {
    pub fn new() -> (r: Self)
        ensures
            r.ticks == 0,
    {
        ClockCounter { ticks: 0 }
    }
}

/// The number of ticks so far.
pub fn read_counter(counter: &ClockCounter) -> (r: u64)
    ensures
        r == counter.ticks,
{
    counter.ticks
}

/// Counts one more tick and returns the count from before it; the count
/// wraps around at the top of `u64`.
pub fn inc_counter(counter: &mut ClockCounter) -> (r: u64)
    ensures
        r == old(counter).ticks,
        final(counter).ticks == (old(counter).ticks + 1) % 0x1_0000_0000_0000_0000,
{
    let previous = counter.ticks;
    counter.ticks = counter.ticks.wrapping_add(1);
    previous
}

/// Whether a process in state `status` is still alive.
pub fn still_alive(status: ProgramStatus) -> (r: bool)
    ensures
        r == (status != ProgramStatus::Dead),
{
    match status {
        ProgramStatus::Dead => false,
        _ => true,
    }
}

/// The switch on a timer tick: counts the tick of the running process,
/// puts it back at the end of the ready queue if it is still running, and
/// runs the first ready process, whose number it returns.
pub fn switch(manager: &mut ProcessManager) -> (r: u16)
    requires
        old(manager).procs_view().contains_key(old(manager).current),
        old(manager).procs_view()[old(manager).current].ticks < usize::MAX,
        tick_queue(old(manager).procs_view(), old(manager).ready@, old(manager).current).len() > 0,
        old(manager).procs_view().contains_key(
            tick_queue(old(manager).procs_view(), old(manager).ready@, old(manager).current)[0],
        ),
    ensures
        (final(manager).procs_view(), final(manager).ready@, final(manager).current) == tick_switch(
            old(manager).procs_view(),
            old(manager).ready@,
            old(manager).current,
        ),
        r == final(manager).current,
        final(manager).waits == old(manager).waits,
{
    manager.save_current();
    let cur = manager.current;
    if manager.proc_status(cur) == ProgramStatus::Running {
        manager.wake_up(cur, None);
    }
    manager.switch_next()
}

/// The running process exits with `ret`: it is killed (waking those that
/// wait for it) and the first ready process runs, whose number it returns.
pub fn exit(manager: &mut ProcessManager, ret: isize) -> (r: u16)
    requires
        old(manager).procs_view().contains_key(old(manager).current),
        ({
            let (p, q, w) = killed(
                old(manager).procs_view(),
                old(manager).ready@,
                old(manager).waits_view(),
                old(manager).current,
                ret,
            );
            q.len() > 0 && p.contains_key(q[0])
        }),
    ensures
        ({
            let (p, q, w) = killed(
                old(manager).procs_view(),
                old(manager).ready@,
                old(manager).waits_view(),
                old(manager).current,
                ret,
            );
            &&& (final(manager).procs_view(), final(manager).ready@, final(manager).current) == next_switch(
                p,
                q,
                old(manager).current,
            )
            &&& final(manager).waits_view() == w
        }),
        r == final(manager).current,
{
    manager.kill_current(ret);
    proof {
        lemma_killed_keeps_keys(
            old(manager).procs_view(),
            old(manager).ready@,
            old(manager).waits_view(),
            old(manager).current,
            ret,
        );
    }
    manager.switch_next()
}

/// The running process waits for process `pid`: where `pid` has exited,
/// its exit code comes back at once; otherwise the running process is
/// recorded as waiting, its tick counted, it is blocked, and the first
/// ready process runs.
pub fn wait_pid(manager: &mut ProcessManager, pid: u16) -> (r: Option<isize>)
    requires
        old(manager).procs_view().contains_key(pid),
        old(manager).procs_view().contains_key(old(manager).current),
        old(manager).procs_view()[old(manager).current].ticks < usize::MAX,
        old(manager).procs_view()[pid].exit_code is None ==> old(manager).ready@.len() > 0
            && old(manager).procs_view().contains_key(old(manager).ready@[0]),
    ensures
        old(manager).procs_view()[pid].exit_code is Some ==> r == old(manager).procs_view()[pid].exit_code
            && *final(manager) == *old(manager),
        old(manager).procs_view()[pid].exit_code is None ==> r is None && ({
            let cur = old(manager).current;
            let p1 = ticked(old(manager).procs_view(), cur);
            let p2 = p1.insert(cur, ProcInfo { status: ProgramStatus::Blocked, ..p1[cur] });
            &&& (final(manager).procs_view(), final(manager).ready@, final(manager).current) == next_switch(
                p2,
                old(manager).ready@,
                cur,
            )
            &&& final(manager).waits_view() == old(manager).waits_view().insert(
                pid,
                if old(manager).waits_view().contains_key(pid) {
                    old(manager).waits_view()[pid].insert(cur)
                } else {
                    Set::<u16>::empty().insert(cur)
                },
            )
        }),
{
    if let Some(ret) = manager.proc_exit_code(pid) {
        return Some(ret);
    }
    manager.wait_pid(pid);
    manager.save_current();
    let cur = manager.current;
    manager.block(cur);
    manager.switch_next();
    None
}

/// The scheduling of a fork that made process `child`: the parent's tick is
/// counted, the child is recorded and queued, then the parent is queued
/// ready after it, and the first ready process runs, whose number it
/// returns.
pub fn fork(manager: &mut ProcessManager, child: u16) -> (r: u16)
    requires
        old(manager).procs_view().contains_key(old(manager).current),
        old(manager).procs_view()[old(manager).current].ticks < usize::MAX,
        child != old(manager).current,
        old(manager).ready@.len() > 0 ==> old(manager).procs_view().contains_key(old(manager).ready@[0]),
    ensures
        ({
            let cur = old(manager).current;
            let p1 = ticked(old(manager).procs_view(), cur);
            let p2 = p1.insert(cur, ProcInfo { status: ProgramStatus::Ready, return_code: Some(child as usize), ..p1[cur] }).insert(
                child,
                ProcInfo { status: ProgramStatus::Ready, exit_code: None, return_code: Some(0), ticks: 0 },
            );
            (final(manager).procs_view(), final(manager).ready@, final(manager).current) == next_switch(
                p2,
                old(manager).ready@.push(child).push(cur),
                cur,
            )
        }),
        r == final(manager).current,
        final(manager).waits == old(manager).waits,
{
    manager.save_current();
    let cur = manager.current;
    let child_pid = manager.fork(child);
    manager.push_ready(child_pid);
    manager.wake_up(cur, None);
    manager.switch_next()
}

} // verus!
