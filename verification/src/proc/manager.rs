//! The process manager's bookkeeping: which processes exist and in what
//! state, the queue of processes ready to run, and who waits for whom.
use std::collections::BTreeSet;
use std::collections::VecDeque;
use vstd::prelude::*;

use crate::proc::ProgramStatus;

verus! {

/// What the manager keeps of a process: its state, its exit code once it
/// has one, the value its next return from a system call gives, and the
/// timer ticks it has run.
#[derive(Clone, Copy, Debug, PartialEq, Eq, Structural)]
pub struct ProcInfo {
    pub status: ProgramStatus,
    pub exit_code: Option<isize>,
    pub return_code: Option<usize>,
    pub ticks: usize,
}

/// The process table: a `hashbrown` map from process number to process,
/// hashed with `ahash`.
#[verifier::external_body]
pub struct ProcTable {
    map: hashbrown::HashMap<u16, ProcInfo, ahash::RandomState>,
}

/// The processes in a process table, by number.
pub uninterp spec fn proc_entries(t: ProcTable) -> Map<u16, ProcInfo>;

/// `HashMap::with_hasher` on a fresh `ahash::RandomState`: an empty table.
#[verifier::external_body]
fn table_new() -> (r: ProcTable)
    ensures
        proc_entries(r).dom() == Set::<u16>::empty(),
{
    ProcTable { map: hashbrown::HashMap::with_hasher(ahash::RandomState::new()) }
}

/// `HashMap::get`: the process numbered `pid`, if there is one.
#[verifier::external_body]
fn table_get(t: &ProcTable, pid: u16) -> (r: Option<ProcInfo>)
    ensures
        proc_entries(*t).contains_key(pid) ==> r == Some(proc_entries(*t)[pid]),
        !proc_entries(*t).contains_key(pid) ==> r is None,
{
    t.map.get(&pid).copied()
}

/// `HashMap::insert`: sets the process numbered `pid`.
#[verifier::external_body]
fn table_insert(t: &mut ProcTable, pid: u16, info: ProcInfo)
    ensures
        proc_entries(*final(t)) == proc_entries(*old(t)).insert(pid, info),
{
    t.map.insert(pid, info);
}

/// Who waits for whom: a `hashbrown` map, hashed with `ahash`, from a
/// process number to the set of processes waiting for it.
#[verifier::external_body]
pub struct WaitTable {
    map: hashbrown::HashMap<u16, BTreeSet<u16>, ahash::RandomState>,
}

/// The waiters in a wait table, by the process they wait for.
pub uninterp spec fn wait_entries(w: WaitTable) -> Map<u16, Set<u16>>;

/// `HashMap::with_hasher` on a fresh `ahash::RandomState`: nobody waits.
#[verifier::external_body]
fn waits_new() -> (r: WaitTable)
    ensures
        wait_entries(r).dom() == Set::<u16>::empty(),
{
    WaitTable { map: hashbrown::HashMap::with_hasher(ahash::RandomState::new()) }
}

/// `HashMap::entry(..).or_default()` then `BTreeSet::insert`: `waiter`
/// waits for `pid` as well.
#[verifier::external_body]
fn waits_add(w: &mut WaitTable, pid: u16, waiter: u16)
    ensures
        wait_entries(*final(w)) == wait_entries(*old(w)).insert(
            pid,
            if wait_entries(*old(w)).contains_key(pid) {
                wait_entries(*old(w))[pid].insert(waiter)
            } else {
                Set::<u16>::empty().insert(waiter)
            },
        ),
{
    w.map.entry(pid).or_default().insert(waiter);
}

/// `HashMap::remove`, then the removed `BTreeSet`'s elements in the
/// ascending order that its iterator gives: the processes that waited for
/// `pid`, who now wait for nothing.
#[verifier::external_body]
fn waits_take(w: &mut WaitTable, pid: u16) -> (r: Vec<u16>)
    ensures
        wait_entries(*final(w)) == wait_entries(*old(w)).remove(pid),
        forall|i: int, j: int| 0 <= i < j < r@.len() ==> r@[i] < r@[j],
        wait_entries(*old(w)).contains_key(pid) ==> r@.to_set() == wait_entries(*old(w))[pid],
        !wait_entries(*old(w)).contains_key(pid) ==> r@.len() == 0,
{
    match w.map.remove(&pid) {
        Some(set) => set.iter().copied().collect(),
        None => Vec::new(),
    }
}

/// The processes, the ready queue, who waits for whom, and the process
/// running now.
pub struct ProcessManager {
    pub procs: ProcTable,
    pub ready: VecDeque<u16>,
    pub waits: WaitTable,
    pub current: u16,
}

/// Waking process `pid`: a known process gets the return value `ret` (if
/// any), becomes ready, and joins the end of the ready queue.
pub open spec fn woken(procs: Map<u16, ProcInfo>, ready: Seq<u16>, pid: u16, ret: Option<isize>) -> (
    Map<u16, ProcInfo>,
    Seq<u16>,
) {
    if procs.contains_key(pid) {
        let p = procs[pid];
        let rc = match ret {
            Some(r) => Some(r as usize),
            None => p.return_code,
        };
        (procs.insert(pid, ProcInfo { status: ProgramStatus::Ready, return_code: rc, ..p }), ready.push(pid))
    } else {
        (procs, ready)
    }
}

/// Waking each of `ws` in turn with `ret`.
pub open spec fn woken_all(procs: Map<u16, ProcInfo>, ready: Seq<u16>, ws: Seq<u16>, ret: Option<isize>) -> (
    Map<u16, ProcInfo>,
    Seq<u16>,
)
    decreases ws.len(),
{
    if ws.len() == 0 {
        (procs, ready)
    } else {
        let (p1, r1) = woken_all(procs, ready, ws.drop_last(), ret);
        woken(p1, r1, ws.last(), ret)
    }
}

/// The elements of `s` in ascending order.
pub open spec fn ascending(s: Set<u16>) -> Seq<u16> {
    choose|q: Seq<u16>|
        (forall|i: int, j: int| 0 <= i < j < q.len() ==> q[i] < q[j]) && q.to_set() == s
}

/// Switching from `cur` to the first process of `ready`: `cur`, if still
/// running, becomes ready (it is not queued again here); the first process
/// leaves the queue and runs. The processes, the queue and the process
/// running afterwards.
pub open spec fn next_switch(procs: Map<u16, ProcInfo>, ready: Seq<u16>, cur: u16) -> (
    Map<u16, ProcInfo>,
    Seq<u16>,
    u16,
) {
    let p1 = if procs[cur].status == ProgramStatus::Running {
        procs.insert(cur, ProcInfo { status: ProgramStatus::Ready, ..procs[cur] })
    } else {
        procs
    };
    let r = ready[0];
    (p1.insert(r, ProcInfo { status: ProgramStatus::Running, ..p1[r] }), ready.drop_first(), r)
}

/// `procs` with one more timer tick counted for `cur`.
pub open spec fn ticked(procs: Map<u16, ProcInfo>, cur: u16) -> Map<u16, ProcInfo> {
    procs.insert(cur, ProcInfo { ticks: (procs[cur].ticks + 1) as usize, ..procs[cur] })
}

/// The switch on a timer tick: the running process's tick is counted; if
/// it is still running it becomes ready and joins the end of the queue;
/// then the first ready process runs.
pub open spec fn tick_switch(procs: Map<u16, ProcInfo>, ready: Seq<u16>, cur: u16) -> (
    Map<u16, ProcInfo>,
    Seq<u16>,
    u16,
) {
    let p1 = ticked(procs, cur);
    if p1[cur].status == ProgramStatus::Running {
        next_switch(p1.insert(cur, ProcInfo { status: ProgramStatus::Ready, ..p1[cur] }), ready.push(cur), cur)
    } else {
        next_switch(p1, ready, cur)
    }
}

/// The ready queue that a tick switch chooses from.
pub open spec fn tick_queue(procs: Map<u16, ProcInfo>, ready: Seq<u16>, cur: u16) -> Seq<u16> {
    if procs[cur].status == ProgramStatus::Running {
        ready.push(cur)
    } else {
        ready
    }
}

/// Switching runs the head of the ready queue and takes it off the queue;
/// the process that was running, if it still was, becomes ready (unless it
/// is the one chosen); every other process is as it was.
pub proof fn law_switch_runs_queue_head(procs: Map<u16, ProcInfo>, ready: Seq<u16>, cur: u16)
    requires
        procs.contains_key(cur),
        ready.len() > 0,
        procs.contains_key(ready[0]),
    ensures
        ({
            let (p, q, now) = next_switch(procs, ready, cur);
            &&& now == ready[0]
            &&& q == ready.subrange(1, ready.len() as int)
            &&& p.dom() == procs.dom()
            &&& p[now].status == ProgramStatus::Running
            &&& p[now].exit_code == procs[now].exit_code && p[now].return_code == procs[now].return_code
                && p[now].ticks == procs[now].ticks
            &&& cur != now && procs[cur].status == ProgramStatus::Running ==> p[cur] == (ProcInfo {
                status: ProgramStatus::Ready,
                ..procs[cur]
            })
            &&& cur != now && procs[cur].status != ProgramStatus::Running ==> p[cur] == procs[cur]
            &&& forall|x: u16| x != cur && x != now && procs.contains_key(x) ==> #[trigger] p[x] == procs[x]
        }),
{
    let (p, q, now) = next_switch(procs, ready, cur);
    assert(q =~= ready.subrange(1, ready.len() as int));
    let p1 = if procs[cur].status == ProgramStatus::Running {
        procs.insert(cur, ProcInfo { status: ProgramStatus::Ready, ..procs[cur] })
    } else {
        procs
    };
    assert(p1.dom() =~= procs.dom());
    assert(p.dom() =~= procs.dom());
}

/// On a timer tick the current process has one more tick counted; if it
/// was still running it joins the end of the ready queue; then the head of
/// the queue (the current process itself, where the queue was empty) runs.
pub proof fn law_tick_round_robin(procs: Map<u16, ProcInfo>, ready: Seq<u16>, cur: u16)
    requires
        procs.contains_key(cur),
        procs[cur].ticks < usize::MAX,
        procs[cur].status == ProgramStatus::Running || ready.len() > 0,
        forall|i: int| 0 <= i < ready.len() ==> procs.contains_key(#[trigger] ready[i]),
    ensures
        ({
            let (p, q, now) = tick_switch(procs, ready, cur);
            let full = if procs[cur].status == ProgramStatus::Running {
                ready.push(cur)
            } else {
                ready
            };
            &&& now == full[0]
            &&& q == full.subrange(1, full.len() as int)
            &&& p.dom() == procs.dom()
            &&& p[now].status == ProgramStatus::Running
            &&& p[cur].ticks == procs[cur].ticks + 1
            &&& now != cur && procs[cur].status == ProgramStatus::Running ==> p[cur].status == ProgramStatus::Ready
            &&& now != cur && procs[cur].status != ProgramStatus::Running ==> p[cur].status == procs[cur].status
            &&& forall|x: u16| x != cur && x != now && procs.contains_key(x) ==> #[trigger] p[x] == procs[x]
        }),
{
    let p1 = ticked(procs, cur);
    assert(p1.dom() =~= procs.dom());
    if procs[cur].status == ProgramStatus::Running {
        let p2 = p1.insert(cur, ProcInfo { status: ProgramStatus::Ready, ..p1[cur] });
        assert(p2.dom() =~= procs.dom());
        law_switch_runs_queue_head(p2, ready.push(cur), cur);
    } else {
        law_switch_runs_queue_head(p1, ready, cur);
    }
}

/// Killing process `pid` with exit code `ret`: nothing changes for an
/// unknown or dead process; otherwise it becomes dead with that exit code,
/// leaves the wait table, and those that waited for it are woken in
/// ascending order with `ret` as their return value.
pub open spec fn killed(
    procs: Map<u16, ProcInfo>,
    ready: Seq<u16>,
    waits: Map<u16, Set<u16>>,
    pid: u16,
    ret: isize,
) -> (Map<u16, ProcInfo>, Seq<u16>, Map<u16, Set<u16>>) {
    if !procs.contains_key(pid) || procs[pid].status == ProgramStatus::Dead {
        (procs, ready, waits)
    } else {
        let dead = procs.insert(pid, ProcInfo { status: ProgramStatus::Dead, exit_code: Some(ret), ..procs[pid] });
        let waiters = if waits.contains_key(pid) {
            ascending(waits[pid])
        } else {
            Seq::<u16>::empty()
        };
        let (p, r) = woken_all(dead, ready, waiters, Some(ret));
        (p, r, waits.remove(pid))
    }
}

/// Waking processes changes no process's presence.
proof fn lemma_woken_all_keeps_keys(procs: Map<u16, ProcInfo>, ready: Seq<u16>, ws: Seq<u16>, ret: Option<isize>)
    ensures
        woken_all(procs, ready, ws, ret).0.dom() == procs.dom(),
    decreases ws.len(),
{
    if ws.len() > 0 {
        lemma_woken_all_keeps_keys(procs, ready, ws.drop_last(), ret);
        let (p1, r1) = woken_all(procs, ready, ws.drop_last(), ret);
        assert(woken(p1, r1, ws.last(), ret).0.dom() =~= p1.dom());
    }
}

/// Killing a process changes no process's presence.
pub proof fn lemma_killed_keeps_keys(
    procs: Map<u16, ProcInfo>,
    ready: Seq<u16>,
    waits: Map<u16, Set<u16>>,
    pid: u16,
    ret: isize,
)
    ensures
        killed(procs, ready, waits, pid, ret).0.dom() == procs.dom(),
{
    if procs.contains_key(pid) && procs[pid].status != ProgramStatus::Dead {
        let dead = procs.insert(pid, ProcInfo { status: ProgramStatus::Dead, exit_code: Some(ret), ..procs[pid] });
        assert(dead.dom() =~= procs.dom());
        let waiters = if waits.contains_key(pid) {
            ascending(waits[pid])
        } else {
            Seq::<u16>::empty()
        };
        lemma_woken_all_keeps_keys(dead, ready, waiters, Some(ret));
    }
}

/// The members of `s` below `n`, in ascending order.
pub open spec fn sorted_below(s: Set<u16>, n: int) -> Seq<u16>
    decreases n,
{
    if n <= 0 {
        Seq::empty()
    } else {
        let q = sorted_below(s, n - 1);
        if s.contains((n - 1) as u16) {
            q.push((n - 1) as u16)
        } else {
            q
        }
    }
}

proof fn lemma_sorted_below(s: Set<u16>, n: int)
    requires
        0 <= n <= 0x1_0000,
    ensures
        forall|i: int, j: int| 0 <= i < j < sorted_below(s, n).len() ==> sorted_below(s, n)[i] < sorted_below(s, n)[j],
        forall|i: int| 0 <= i < sorted_below(s, n).len() ==> (sorted_below(s, n)[i] as int) < n,
        forall|x: u16| #[trigger] sorted_below(s, n).contains(x) <==> (s.contains(x) && (x as int) < n),
    decreases n,
{
    if n > 0 {
        lemma_sorted_below(s, n - 1);
        let q = sorted_below(s, n - 1);
        let y = (n - 1) as u16;
        if s.contains(y) {
            let q2 = q.push(y);
            assert forall|x: u16| #[trigger] q2.contains(x) <==> (s.contains(x) && (x as int) < n) by {
                if q2.contains(x) {
                    let i = choose|i: int| 0 <= i < q2.len() && q2[i] == x;
                    if i < q.len() {
                        assert(q.contains(x));
                    }
                }
                if s.contains(x) && (x as int) < n {
                    if x == y {
                        assert(q2[q.len() as int] == x);
                    } else {
                        assert(q.contains(x));
                        let i = choose|i: int| 0 <= i < q.len() && q[i] == x;
                        assert(q2[i] == x);
                    }
                }
            }
        }
    }
}

/// Every set of process numbers has its ascending enumeration.
pub proof fn lemma_ascending(s: Set<u16>)
    ensures
        forall|i: int, j: int| 0 <= i < j < ascending(s).len() ==> ascending(s)[i] < ascending(s)[j],
        ascending(s).to_set() == s,
{
    let q = sorted_below(s, 0x1_0000);
    lemma_sorted_below(s, 0x1_0000);
    assert(q.to_set() =~= s) by {
        assert forall|x: u16| q.to_set().contains(x) <==> s.contains(x) by {
            assert(q.contains(x) <==> (s.contains(x) && (x as int) < 0x1_0000));
        }
    }
    assert((forall|i: int, j: int| 0 <= i < j < q.len() ==> q[i] < q[j]) && q.to_set() == s);
}

/// Waking each of `ws` with return value `r`: each of them that exists is
/// ready and returns `r`; every other process is as it was.
proof fn lemma_woken_all_effect(procs: Map<u16, ProcInfo>, ready: Seq<u16>, ws: Seq<u16>, r: isize)
    ensures
        forall|w: u16|
            ws.contains(w) && procs.contains_key(w) ==> (#[trigger] woken_all(procs, ready, ws, Some(r)).0[w]).status
                == ProgramStatus::Ready && woken_all(procs, ready, ws, Some(r)).0[w].return_code == Some(r as usize),
        forall|w: u16|
            !ws.contains(w) && procs.contains_key(w) ==> #[trigger] woken_all(procs, ready, ws, Some(r)).0[w]
                == procs[w],
    decreases ws.len(),
{
    lemma_woken_all_keeps_keys(procs, ready, ws, Some(r));
    if ws.len() > 0 {
        let pre = ws.drop_last();
        lemma_woken_all_effect(procs, ready, pre, r);
        lemma_woken_all_keeps_keys(procs, ready, pre, Some(r));
        let (p1, r1) = woken_all(procs, ready, pre, Some(r));
        let last = ws.last();
        assert forall|w: u16| ws.contains(w) && procs.contains_key(w) implies (#[trigger] woken_all(
            procs,
            ready,
            ws,
            Some(r),
        ).0[w]).status == ProgramStatus::Ready && woken_all(procs, ready, ws, Some(r)).0[w].return_code == Some(
            r as usize,
        ) by {
            if w != last {
                let i = choose|i: int| 0 <= i < ws.len() && ws[i] == w;
                assert(pre[i] == w);
                assert(pre.contains(w));
            }
            assert(p1.contains_key(w));
        }
        assert forall|w: u16| !ws.contains(w) && procs.contains_key(w) implies #[trigger] woken_all(
            procs,
            ready,
            ws,
            Some(r),
        ).0[w] == procs[w] by {
            assert(w != last);
            if pre.contains(w) {
                let i = choose|i: int| 0 <= i < pre.len() && pre[i] == w;
                assert(ws[i] == w);
            }
        }
    }
}

/// Waking the processes of an ascending `ws` appends to the ready queue,
/// in ascending order, exactly those of them that exist.
proof fn lemma_woken_all_queue(procs: Map<u16, ProcInfo>, ready: Seq<u16>, ws: Seq<u16>, ret: Option<isize>)
    requires
        forall|i: int, j: int| 0 <= i < j < ws.len() ==> ws[i] < ws[j],
    ensures
        ({
            let r = woken_all(procs, ready, ws, ret).1;
            let e = r.subrange(ready.len() as int, r.len() as int);
            &&& r.len() >= ready.len()
            &&& r.subrange(0, ready.len() as int) == ready
            &&& forall|i: int, j: int| 0 <= i < j < e.len() ==> e[i] < e[j]
            &&& forall|q: u16| #[trigger] e.contains(q) <==> (ws.contains(q) && procs.contains_key(q))
            &&& forall|i: int| 0 <= i < e.len() ==> ws.contains(#[trigger] e[i])
        }),
    decreases ws.len(),
{
    let r = woken_all(procs, ready, ws, ret).1;
    if ws.len() == 0 {
        assert(r.subrange(0, ready.len() as int) =~= ready);
        assert(r.subrange(ready.len() as int, r.len() as int) =~= Seq::<u16>::empty());
    } else {
        let pre = ws.drop_last();
        lemma_woken_all_queue(procs, ready, pre, ret);
        lemma_woken_all_keeps_keys(procs, ready, pre, ret);
        let (p1, r1) = woken_all(procs, ready, pre, ret);
        let e1 = r1.subrange(ready.len() as int, r1.len() as int);
        let last = ws.last();
        let e = r.subrange(ready.len() as int, r.len() as int);
        assert forall|q: u16| pre.contains(q) implies q < last by {
            let i = choose|i: int| 0 <= i < pre.len() && pre[i] == q;
            assert(ws[i] == q);
        }
        assert forall|q: u16| ws.contains(q) <==> (pre.contains(q) || q == last) by {
            if ws.contains(q) && q != last {
                let i = choose|i: int| 0 <= i < ws.len() && ws[i] == q;
                assert(pre[i] == q);
            }
            if pre.contains(q) {
                let i = choose|i: int| 0 <= i < pre.len() && pre[i] == q;
                assert(ws[i] == q);
            }
            if q == last {
                assert(ws[ws.len() - 1] == q);
            }
        }
        if p1.contains_key(last) {
            assert(r == r1.push(last));
            assert(e =~= e1.push(last));
            assert(r.subrange(0, ready.len() as int) =~= r1.subrange(0, ready.len() as int));
            assert forall|q: u16| #[trigger] e.contains(q) <==> (ws.contains(q) && procs.contains_key(q)) by {
                if e.contains(q) && q != last {
                    let i = choose|i: int| 0 <= i < e.len() && e[i] == q;
                    assert(e1[i] == q);
                }
                if e1.contains(q) {
                    let i = choose|i: int| 0 <= i < e1.len() && e1[i] == q;
                    assert(e[i] == q);
                }
                if q == last {
                    assert(e[e.len() - 1] == q);
                }
            }
            assert forall|i: int, j: int| 0 <= i < j < e.len() implies e[i] < e[j] by {
                if j == e.len() - 1 && i < e1.len() {
                    assert(ws.contains(e1[i]));
                    assert(pre.contains(e1[i]) || e1[i] == last);
                    if e1[i] == last {
                        assert(pre.contains(e1[i]));
                    }
                }
            }
            assert forall|i: int| 0 <= i < e.len() implies ws.contains(#[trigger] e[i]) by {
                if i < e1.len() {
                    assert(e[i] == e1[i]);
                    assert(pre.contains(e1[i]));
                }
            }
        } else {
            assert(r == r1);
            assert(!procs.contains_key(last));
        }
    }
}

/// Killing a live process `pid` with exit code `ret`: `pid` is dead with
/// exit code `ret` and no one waits for it any more; every process that
/// waited for it is ready, and its wait returns `ret`; every other process
/// is as it was. The ready queue keeps its order and gains, at its end and
/// in ascending order, exactly the waiters that exist. (A process that waited for itself would be woken too, so
/// that case is left out of what is said of `pid`.)
pub proof fn law_kill_wakes_waiters(
    procs: Map<u16, ProcInfo>,
    ready: Seq<u16>,
    waits: Map<u16, Set<u16>>,
    pid: u16,
    ret: isize,
)
    requires
        procs.contains_key(pid),
        procs[pid].status != ProgramStatus::Dead,
    ensures
        ({
            let (p, r, w) = killed(procs, ready, waits, pid, ret);
            &&& !w.contains_key(pid)
            &&& p.dom() == procs.dom()
            &&& r.len() >= ready.len()
            &&& r.subrange(0, ready.len() as int) == ready
            &&& forall|i: int, j: int|
                0 <= i < j < r.len() - ready.len() ==> r.subrange(ready.len() as int, r.len() as int)[i] < r.subrange(
                    ready.len() as int,
                    r.len() as int,
                )[j]
            &&& forall|q: u16|
                #[trigger] r.subrange(ready.len() as int, r.len() as int).contains(q) <==> (waits.contains_key(pid)
                    && waits[pid].contains(q) && procs.contains_key(q))
            &&& !(waits.contains_key(pid) && waits[pid].contains(pid)) ==> p[pid].status == ProgramStatus::Dead
                && p[pid].exit_code == Some(ret)
            &&& forall|q: u16|
                waits.contains_key(pid) && waits[pid].contains(q) && procs.contains_key(q) ==> (#[trigger] p[q]).status
                    == ProgramStatus::Ready && p[q].return_code == Some(ret as usize)
            &&& forall|q: u16|
                q != pid && !(waits.contains_key(pid) && waits[pid].contains(q)) && procs.contains_key(q) ==> #[trigger] p[q]
                    == procs[q]
        }),
{
    let dead = procs.insert(pid, ProcInfo { status: ProgramStatus::Dead, exit_code: Some(ret), ..procs[pid] });
    let waiters = if waits.contains_key(pid) {
        ascending(waits[pid])
    } else {
        Seq::<u16>::empty()
    };
    if waits.contains_key(pid) {
        lemma_ascending(waits[pid]);
    }
    assert forall|q: u16| waiters.contains(q) <==> (waits.contains_key(pid) && waits[pid].contains(q)) by {
        if waits.contains_key(pid) {
            assert(waiters.to_set().contains(q) == waiters.contains(q));
        }
    }
    lemma_woken_all_effect(dead, ready, waiters, ret);
    lemma_woken_all_queue(dead, ready, waiters, Some(ret));
    lemma_killed_keeps_keys(procs, ready, waits, pid, ret);
    let (p, r) = woken_all(dead, ready, waiters, Some(ret));
    assert forall|q: u16|
        waits.contains_key(pid) && waits[pid].contains(q) && procs.contains_key(q) implies (#[trigger] p[q]).status
        == ProgramStatus::Ready && p[q].return_code == Some(ret as usize) by {
        assert(waiters.contains(q));
        assert(dead.contains_key(q));
    }
    assert forall|q: u16|
        q != pid && !(waits.contains_key(pid) && waits[pid].contains(q)) && procs.contains_key(q) implies #[trigger] p[q]
        == procs[q] by {
        assert(!waiters.contains(q));
        assert(dead.contains_key(q));
    }
    if !(waits.contains_key(pid) && waits[pid].contains(pid)) {
        assert(!waiters.contains(pid));
        assert(dead.contains_key(pid));
    }
}

/// Two ascending sequences with the same elements are the same sequence.
proof fn lemma_ascending_unique(a: Seq<u16>, b: Seq<u16>)
    requires
        forall|i: int, j: int| 0 <= i < j < a.len() ==> a[i] < a[j],
        forall|i: int, j: int| 0 <= i < j < b.len() ==> b[i] < b[j],
        a.to_set() == b.to_set(),
    ensures
        a == b,
    decreases a.len(),
{
    if a.len() == 0 {
        if b.len() > 0 {
            assert(b.to_set().contains(b[0]));
        }
        assert(b.len() == 0);
    } else if b.len() == 0 {
        assert(a.to_set().contains(a[0]));
    } else {
        let la = a.last();
        let lb = b.last();
        assert(a.to_set().contains(la));
        assert(b.to_set().contains(lb));
        assert(b.to_set().contains(la));
        assert(a.to_set().contains(lb));
        let ia = choose|i: int| 0 <= i < b.len() && b[i] == la;
        let ib = choose|i: int| 0 <= i < a.len() && a[i] == lb;
        if la < lb {
            assert(ib < a.len() - 1 ==> a[ib] < a[a.len() - 1]);
        }
        if lb < la {
            assert(ia < b.len() - 1 ==> b[ia] < b[b.len() - 1]);
        }
        assert(la == lb);
        let a2 = a.drop_last();
        let b2 = b.drop_last();
        assert(a2.to_set() =~= b2.to_set()) by {
            assert forall|x: u16| a2.to_set().contains(x) implies b2.to_set().contains(x) by {
                let i = choose|i: int| 0 <= i < a2.len() && a2[i] == x;
                assert(a.to_set().contains(x));
                let j = choose|j: int| 0 <= j < b.len() && b[j] == x;
                assert(x < la);
                if j == b.len() - 1 {
                    assert(false);
                }
                assert(b2[j] == x);
            }
            assert forall|x: u16| b2.to_set().contains(x) implies a2.to_set().contains(x) by {
                let i = choose|i: int| 0 <= i < b2.len() && b2[i] == x;
                assert(b.to_set().contains(x));
                let j = choose|j: int| 0 <= j < a.len() && a[j] == x;
                assert(x < lb);
                if j == a.len() - 1 {
                    assert(false);
                }
                assert(a2[j] == x);
            }
        }
        lemma_ascending_unique(a2, b2);
        assert(a =~= a2.push(la));
        assert(b =~= b2.push(lb));
    }
}

impl ProcessManager {
    pub open spec fn procs_view(&self) -> Map<u16, ProcInfo> {
        proc_entries(self.procs)
    }

    pub open spec fn waits_view(&self) -> Map<u16, Set<u16>> {
        wait_entries(self.waits)
    }

    /// A manager whose only process, `init`, is running.
    pub fn new(init: u16) -> (r: Self)
        ensures
            r.procs_view() == Map::<u16, ProcInfo>::empty().insert(
                init,
                ProcInfo { status: ProgramStatus::Running, exit_code: None, return_code: None, ticks: 0 },
            ),
            r.ready@ == Seq::<u16>::empty(),
            r.waits_view() == Map::<u16, Set<u16>>::empty(),
            r.current == init,
    {
        let mut procs = table_new();
        table_insert(
            &mut procs,
            init,
            ProcInfo { status: ProgramStatus::Running, exit_code: None, return_code: None, ticks: 0 },
        );
        ProcessManager { procs, ready: VecDeque::new(), waits: waits_new(), current: init }
    }

    /// Puts `pid` at the end of the ready queue.
    pub fn push_ready(&mut self, pid: u16)
        ensures
            final(self).ready@ == old(self).ready@.push(pid),
            final(self).procs == old(self).procs,
            final(self).waits == old(self).waits,
            final(self).current == old(self).current,
    {
        self.ready.push_back(pid);
    }

    /// Records a new process `pid`, ready to run, at the end of the ready
    /// queue.
    pub fn add_ready_process(&mut self, pid: u16)
        ensures
            final(self).procs_view() == old(self).procs_view().insert(
                pid,
                ProcInfo { status: ProgramStatus::Ready, exit_code: None, return_code: None, ticks: 0 },
            ),
            final(self).ready@ == old(self).ready@.push(pid),
            final(self).waits == old(self).waits,
            final(self).current == old(self).current,
    {
        table_insert(
            &mut self.procs,
            pid,
            ProcInfo { status: ProgramStatus::Ready, exit_code: None, return_code: None, ticks: 0 },
        );
        self.push_ready(pid);
    }

    /// The state of process `pid`.
    pub fn proc_status(&self, pid: u16) -> (r: ProgramStatus)
        requires
            self.procs_view().contains_key(pid),
        ensures
            r == self.procs_view()[pid].status,
    {
        match table_get(&self.procs, pid) {
            Some(p) => p.status,
            None => ProgramStatus::Dead,
        }
    }

    /// The exit code of process `pid`, once it has exited.
    pub fn proc_exit_code(&self, pid: u16) -> (r: Option<isize>)
        requires
            self.procs_view().contains_key(pid),
        ensures
            r == self.procs_view()[pid].exit_code,
    {
        match table_get(&self.procs, pid) {
            Some(p) => p.exit_code,
            None => None,
        }
    }

    /// Blocks process `pid`, if there is one.
    pub fn block(&mut self, pid: u16)
        ensures
            final(self).procs_view() == if old(self).procs_view().contains_key(pid) {
                old(self).procs_view().insert(
                    pid,
                    ProcInfo { status: ProgramStatus::Blocked, ..old(self).procs_view()[pid] },
                )
            } else {
                old(self).procs_view()
            },
            final(self).ready == old(self).ready,
            final(self).waits == old(self).waits,
            final(self).current == old(self).current,
    {
        if let Some(p) = table_get(&self.procs, pid) {
            table_insert(&mut self.procs, pid, ProcInfo { status: ProgramStatus::Blocked, ..p });
        }
    }

    /// Counts one more timer tick for the running process.
    pub fn save_current(&mut self)
        requires
            old(self).procs_view().contains_key(old(self).current),
            old(self).procs_view()[old(self).current].ticks < usize::MAX,
        ensures
            final(self).procs_view() == old(self).procs_view().insert(
                old(self).current,
                ProcInfo {
                    ticks: (old(self).procs_view()[old(self).current].ticks + 1) as usize,
                    ..old(self).procs_view()[old(self).current]
                },
            ),
            final(self).ready == old(self).ready,
            final(self).waits == old(self).waits,
            final(self).current == old(self).current,
    {
        if let Some(p) = table_get(&self.procs, self.current) {
            table_insert(&mut self.procs, self.current, ProcInfo { ticks: p.ticks + 1, ..p });
        }
    }

    /// Switches to the first process in the ready queue: the running
    /// process, if still running, becomes ready (it is not queued again
    /// here), and the next one runs.
    pub fn switch_next(&mut self) -> (r: u16)
        requires
            old(self).procs_view().contains_key(old(self).current),
            old(self).ready@.len() > 0,
            old(self).procs_view().contains_key(old(self).ready@[0]),
        ensures
            r == old(self).ready@[0],
            (final(self).procs_view(), final(self).ready@, final(self).current) == next_switch(
                old(self).procs_view(),
                old(self).ready@,
                old(self).current,
            ),
            final(self).waits == old(self).waits,
    {
        let cur = self.current;
        if let Some(p) = table_get(&self.procs, cur) {
            if p.status == ProgramStatus::Running {
                table_insert(&mut self.procs, cur, ProcInfo { status: ProgramStatus::Ready, ..p });
            }
        }
        let pid = match self.ready.pop_front() {
            Some(p) => p,
            None => {
                assert(false);
                0
            },
        };
        if let Some(p) = table_get(&self.procs, pid) {
            table_insert(&mut self.procs, pid, ProcInfo { status: ProgramStatus::Running, ..p });
        }
        self.current = pid;
        pid
    }

    /// Records `child`, a copy of the running process made by a fork: a
    /// new ready process whose system call returns 0, while the running
    /// process's returns the child's number. Returns `child`.
    pub fn fork(&mut self, child: u16) -> (r: u16)
        requires
            old(self).procs_view().contains_key(old(self).current),
            child != old(self).current,
        ensures
            r == child,
            ({
                let cur = old(self).current;
                let p0 = old(self).procs_view();
                final(self).procs_view() == p0.insert(
                    cur,
                    ProcInfo { return_code: Some(child as usize), ..p0[cur] },
                ).insert(
                    child,
                    ProcInfo { status: ProgramStatus::Ready, exit_code: None, return_code: Some(0), ticks: 0 },
                )
            }),
            final(self).ready == old(self).ready,
            final(self).waits == old(self).waits,
            final(self).current == old(self).current,
    {
        let cur = self.current;
        if let Some(p) = table_get(&self.procs, cur) {
            table_insert(&mut self.procs, cur, ProcInfo { return_code: Some(child as usize), ..p });
        }
        table_insert(
            &mut self.procs,
            child,
            ProcInfo { status: ProgramStatus::Ready, exit_code: None, return_code: Some(0), ticks: 0 },
        );
        child
    }

    /// Makes the running process wait for process `pid`.
    pub fn wait_pid(&mut self, pid: u16)
        ensures
            final(self).waits_view() == old(self).waits_view().insert(
                pid,
                if old(self).waits_view().contains_key(pid) {
                    old(self).waits_view()[pid].insert(old(self).current)
                } else {
                    Set::<u16>::empty().insert(old(self).current)
                },
            ),
            final(self).procs == old(self).procs,
            final(self).ready == old(self).ready,
            final(self).current == old(self).current,
    {
        waits_add(&mut self.waits, pid, self.current);
    }

    /// Wakes process `pid`, if there is one: it gets the return value `ret`
    /// (if any), becomes ready, and joins the ready queue.
    pub fn wake_up(&mut self, pid: u16, ret: Option<isize>)
        ensures
            (final(self).procs_view(), final(self).ready@) == woken(
                old(self).procs_view(),
                old(self).ready@,
                pid,
                ret,
            ),
            final(self).waits == old(self).waits,
            final(self).current == old(self).current,
    {
        if let Some(p) = table_get(&self.procs, pid) {
            let rc = match ret {
                Some(r) => Some(r as usize),
                None => p.return_code,
            };
            table_insert(&mut self.procs, pid, ProcInfo { status: ProgramStatus::Ready, return_code: rc, ..p });
            self.push_ready(pid);
        }
    }

    /// Kills process `pid` with exit code `ret`, unless it is unknown or
    /// already dead; the processes that waited for it are woken, in
    /// ascending order of their numbers, with `ret` as their return value.
    pub fn kill(&mut self, pid: u16, ret: isize)
        ensures
            final(self).current == old(self).current,
            (final(self).procs_view(), final(self).ready@, final(self).waits_view()) == killed(
                old(self).procs_view(),
                old(self).ready@,
                old(self).waits_view(),
                pid,
                ret,
            ),
    {
        let p = match table_get(&self.procs, pid) {
            Some(p) => p,
            None => return,
        };
        if p.status == ProgramStatus::Dead {
            return;
        }
        table_insert(&mut self.procs, pid, ProcInfo { status: ProgramStatus::Dead, exit_code: Some(ret), ..p });
        let ghost killed = proc_entries(self.procs);
        let ghost ready0 = self.ready@;
        let ghost w0 = wait_entries(self.waits);
        let waiters = waits_take(&mut self.waits, pid);
        proof {
            if w0.contains_key(pid) {
                let q = ascending(w0[pid]);
                assert((forall|i: int, j: int| 0 <= i < j < waiters@.len() ==> waiters@[i] < waiters@[j])
                    && waiters@.to_set() == w0[pid]);
                lemma_ascending_unique(waiters@, q);
            } else {
                assert(waiters@ =~= Seq::<u16>::empty());
            }
        }
        let mut k: usize = 0;
        assert(waiters@.subrange(0, 0) =~= Seq::<u16>::empty());
        while k < waiters.len()
            invariant
                k <= waiters@.len(),
                (proc_entries(self.procs), self.ready@) == woken_all(
                    killed,
                    ready0,
                    waiters@.subrange(0, k as int),
                    Some(ret),
                ),
                wait_entries(self.waits) == w0.remove(pid),
                self.current == old(self).current,
            decreases waiters@.len() - k,
        {
            let ghost pre = waiters@.subrange(0, k + 1);
            assert(pre.drop_last() =~= waiters@.subrange(0, k as int));
            assert(pre.last() == waiters@[k as int]);
            self.wake_up(waiters[k], Some(ret));
            k = k + 1;
        }
        assert(waiters@.subrange(0, waiters@.len() as int) =~= waiters@);
    }

    /// Kills the running process with exit code `ret`.
    pub fn kill_current(&mut self, ret: isize)
        ensures
            final(self).current == old(self).current,
            (final(self).procs_view(), final(self).ready@, final(self).waits_view()) == killed(
                old(self).procs_view(),
                old(self).ready@,
                old(self).waits_view(),
                old(self).current,
                ret,
            ),
    {
        let pid = self.current;
        self.kill(pid, ret);
    }
}

} // verus!
