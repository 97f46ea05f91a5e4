use ysos_core::proc::manager::ProcessManager;
use ysos_core::proc::{exit, fork, switch, wait_pid, ProgramStatus};

fn queue(m: &ProcessManager) -> Vec<u16> {
    m.ready.iter().copied().collect()
}

#[test]
fn manager_starts_with_init_running() {
    let m = ProcessManager::new(1);
    assert_eq!(m.current, 1);
    assert_eq!(m.proc_status(1), ProgramStatus::Running);
    assert_eq!(m.proc_exit_code(1), None);
    assert!(queue(&m).is_empty());
}

#[test]
fn manager_round_robin_switch() {
    let mut m = ProcessManager::new(1);
    m.add_ready_process(2);
    m.add_ready_process(3);
    assert_eq!(queue(&m), vec![2, 3]);
    m.push_ready(1);
    let next = m.switch_next();
    assert_eq!(next, 2);
    assert_eq!(m.current, 2);
    assert_eq!(m.proc_status(1), ProgramStatus::Ready);
    assert_eq!(m.proc_status(2), ProgramStatus::Running);
    assert_eq!(queue(&m), vec![3, 1]);
    m.save_current();
    let next = m.switch_next();
    assert_eq!(next, 3);
    assert_eq!(m.proc_status(2), ProgramStatus::Ready);
}

#[test]
fn manager_blocked_process_is_not_paused_on_switch() {
    let mut m = ProcessManager::new(1);
    m.add_ready_process(2);
    m.block(1);
    assert_eq!(m.proc_status(1), ProgramStatus::Blocked);
    m.switch_next();
    assert_eq!(m.proc_status(1), ProgramStatus::Blocked);
    // An unknown process is left alone.
    m.block(9);
    assert_eq!(m.proc_status(2), ProgramStatus::Running);
}

#[test]
fn manager_kill_wakes_waiters_in_ascending_order() {
    let mut m = ProcessManager::new(1);
    m.add_ready_process(2);
    m.add_ready_process(3);
    m.add_ready_process(4);
    // Processes 4 and 3 (in that order) come to wait for 2.
    m.current = 4;
    m.wait_pid(2);
    m.block(4);
    m.current = 3;
    m.wait_pid(2);
    m.block(3);
    m.current = 1;
    m.ready.clear();
    m.kill(2, 7);
    assert_eq!(m.proc_status(2), ProgramStatus::Dead);
    assert_eq!(m.proc_exit_code(2), Some(7));
    assert_eq!(m.proc_status(3), ProgramStatus::Ready);
    assert_eq!(m.proc_status(4), ProgramStatus::Ready);
    assert_eq!(queue(&m), vec![3, 4]);
    // Killing a dead process changes nothing.
    m.kill(2, 9);
    assert_eq!(m.proc_exit_code(2), Some(7));
    assert_eq!(queue(&m), vec![3, 4]);
    // Killing an unknown process changes nothing.
    m.kill(42, 1);
    assert_eq!(queue(&m), vec![3, 4]);
}

#[test]
fn manager_kill_current() {
    let mut m = ProcessManager::new(1);
    m.add_ready_process(2);
    m.switch_next();
    m.kill_current(-1);
    assert_eq!(m.proc_status(2), ProgramStatus::Dead);
    assert_eq!(m.proc_exit_code(2), Some(-1));
    assert_eq!(m.current, 2);
}

#[test]
fn manager_wake_up_unknown_is_ignored() {
    let mut m = ProcessManager::new(1);
    m.wake_up(5, Some(3));
    assert!(queue(&m).is_empty());
    m.block(1);
    m.wake_up(1, None);
    assert_eq!(m.proc_status(1), ProgramStatus::Ready);
    assert_eq!(queue(&m), vec![1]);
}

#[test]
fn timer_switch_requeues_running_process() {
    let mut m = ProcessManager::new(1);
    m.add_ready_process(2);
    let next = switch(&mut m);
    assert_eq!(next, 2);
    assert_eq!(m.current, 2);
    assert_eq!(m.proc_status(1), ProgramStatus::Ready);
    assert_eq!(m.proc_status(2), ProgramStatus::Running);
    assert_eq!(queue(&m), vec![1]);
    // Round robin: back to 1, and 2 is queued.
    assert_eq!(switch(&mut m), 1);
    assert_eq!(queue(&m), vec![2]);
}

#[test]
fn wait_then_exit_hands_back_exit_code() {
    let mut m = ProcessManager::new(1);
    m.add_ready_process(2);
    // 1 waits for 2, which has not exited: 1 blocks and 2 runs.
    assert_eq!(wait_pid(&mut m, 2), None);
    assert_eq!(m.current, 2);
    assert_eq!(m.proc_status(1), ProgramStatus::Blocked);
    // 2 exits with 42: 1 is woken and runs next.
    assert_eq!(exit(&mut m, 42), 1);
    assert_eq!(m.proc_status(2), ProgramStatus::Dead);
    assert_eq!(m.proc_status(1), ProgramStatus::Running);
    assert!(queue(&m).is_empty());
    // Now the exit code is known at once.
    assert_eq!(wait_pid(&mut m, 2), Some(42));
    assert_eq!(m.current, 1);
}

#[test]
fn fork_queues_child_then_parent() {
    let mut m = ProcessManager::new(1);
    let next = fork(&mut m, 2);
    // The child was queued first, so it runs; the parent waits behind it.
    assert_eq!(next, 2);
    assert_eq!(m.proc_status(2), ProgramStatus::Running);
    assert_eq!(m.proc_status(1), ProgramStatus::Ready);
    assert_eq!(queue(&m), vec![1]);
    assert_eq!(m.proc_exit_code(2), None);
}
