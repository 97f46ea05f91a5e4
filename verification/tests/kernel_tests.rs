use ysos_core::drivers::input::{
    is_ignored_ctrl, push_key, read_line_feed, try_pop_key, InputBuffer, LineEditor, LineEvent,
};
use ysos_core::memory::{
    align_up, align_up_page, fork_regs, heap_growth, heap_release_pages, heap_usage, init_proc_stack,
    initial_heap_end, ForkRegs, ProcStack,
    is_on_stack, kernel_stack_consts, plan_brk, plan_stack_growth, stack_consts, BrkPlan,
    StackGrowError, StackGrowth, HEAP_END, HEAP_START,
};
use ysos_core::proc::{
    inc_counter, kernel_pid, read_counter, still_alive, ClockCounter, PidCounter, ProcessId,
    ProgramStatus,
};
use ysos_core::syscall::{
    encode_sem, path_arg, sem_direct_answer, sem_succeeded, sys_create_dir, sys_create_file, sys_open, sys_sem, SemOp, Semaphore,
    Syscall, SyscallArgs,
};
use ysos_core::drivers::ata::AtaDrive;
use ysos_core::drivers::filesystem::VirtualFileSystem;
use ysos_core::drivers::mounted::{MountedFs, OpenFile};
use ysos_core::storage::ramdisk::RamDisk;
use ysos_core::storage::tmpfs::fs::TmpFs;
use ysos_core::time::{nanos_since_2000, nanos_to_datetime, sleep_elapsed, unix_parts};

#[test]
fn syscall_numbers_roundtrip() {
    let all = [
        Syscall::Read,
        Syscall::Write,
        Syscall::Brk,
        Syscall::GetPid,
        Syscall::Fork,
        Syscall::Spawn,
        Syscall::Exit,
        Syscall::WaitPid,
        Syscall::Open,
        Syscall::Close,
        Syscall::CreateFile,
        Syscall::CreateDir,
        Syscall::Cat,
        Syscall::ListDir,
        Syscall::Sem,
        Syscall::Time,
        Syscall::ListApp,
        Syscall::Stat,
        Syscall::Allocate,
        Syscall::Deallocate,
        Syscall::Unknown,
    ];
    for s in all {
        assert_eq!(Syscall::from_primitive(s.number()), s);
    }
    assert_eq!(Syscall::Brk.number(), 12);
    assert_eq!(Syscall::Sem.number(), 65529);
    assert_eq!(Syscall::from_primitive(2), Syscall::Unknown);
    assert_eq!(Syscall::from_primitive(65524), Syscall::Unknown);
    assert_eq!(Syscall::from_primitive(usize::MAX), Syscall::Unknown);
}

#[test]
fn semaphore_calls_decode_to_their_operation() {
    let s = Semaphore::new(7);
    let init = s.init(3);
    assert_eq!((init.syscall, init.arg0, init.arg1, init.arg2), (Syscall::Sem, 0, 7, 3));
    assert_eq!(sys_sem(&init), SemOp::New { key: 7, value: 3 });
    assert_eq!(sys_sem(&s.destroy()), SemOp::Remove { key: 7 });
    assert_eq!(sys_sem(&s.signal()), SemOp::Signal { key: 7 });
    assert_eq!(sys_sem(&s.wait()), SemOp::Wait { key: 7 });
    assert_eq!(sys_sem(&encode_sem(SemOp::Invalid)), SemOp::Invalid);
    let wide = SyscallArgs::new(Syscall::Sem, 2, 0x1_0000_0005, 0);
    assert_eq!(sys_sem(&wide), SemOp::Signal { key: 5 });
    assert!(sem_succeeded(0));
    assert!(!sem_succeeded(1));
}

#[test]
fn path_argument_rules() {
    let null_with_len = SyscallArgs::new(Syscall::Open, 0, 3, 0);
    assert_eq!(path_arg(&null_with_len, b"abc"), None);
    let empty = SyscallArgs::new(Syscall::Open, 0x1000, 0, 0);
    assert_eq!(path_arg(&empty, b""), Some(""));
    let ok = SyscallArgs::new(Syscall::Open, 0x1000, 4, 0);
    assert_eq!(path_arg(&ok, b"/tmp"), Some("/tmp"));
    assert_eq!(path_arg(&ok, &[0xff, 0xfe, 0x41, 0x42]), None);
}

#[test]
fn brk_plans() {
    let base = HEAP_START;
    assert_eq!(plan_brk(base, base, None), BrkPlan::Query { end: base });
    assert_eq!(plan_brk(base, base, Some(base - 1)), BrkPlan::Refuse);
    assert_eq!(plan_brk(base, base, Some(HEAP_END + 1)), BrkPlan::Refuse);
    assert_eq!(
        plan_brk(base, base, Some(base + 0x2001)),
        BrkPlan::Grow { start: base, pages: 3, end: base + 0x2001 }
    );
    assert_eq!(
        plan_brk(base, base + 0x2001, Some(base + 0x10)),
        BrkPlan::Shrink { start: base + 0x1000, pages: 2, end: base + 0x10 }
    );
    assert_eq!(plan_brk(base, base + 0x10, Some(base + 0x20)), BrkPlan::Move { end: base + 0x20 });
    assert_eq!(heap_release_pages(base, base + 0x2001), 3);
    assert_eq!(heap_release_pages(base, base), 0);
    assert_eq!(heap_usage(base, base + 0x2001), 0x2001);
}

#[test]
fn alignment() {
    assert_eq!(align_up_page(0), 0);
    assert_eq!(align_up_page(1), 4096);
    assert_eq!(align_up_page(4096), 4096);
    assert_eq!(align_up_page(4097), 8192);
    assert_eq!(align_up(8191), 8192);
}

#[test]
fn user_heap_growth() {
    assert_eq!(heap_growth(0, 100, 8, 8), None);
    assert_eq!(heap_growth(0x1000, 0x1000, 8, 8), None);
    assert_eq!(heap_growth(0x1000, 0x1000 + 8 * 1024 * 1024, 8, 8), None);
    assert_eq!(heap_growth(0x1000, 0x3000, 16, 8), Some(65536));
    assert_eq!(heap_growth(0x1000, 0x3000, 70000, 8), Some(73728));
    assert_eq!(heap_growth(0x1000, 0x1000 + 8 * 1024 * 1024 - 100, 16, 8), Some(100));
    assert_eq!(initial_heap_end(0x4000), 0x4000 + 8184);
}

#[test]
fn stack_layout() {
    let c = stack_consts(0x4000_0000_0000, 0x100000, 1);
    assert_eq!(c.stack_max_size, 0x1_0000_0000);
    assert_eq!(c.stack_start_mask, !(0x1_0000_0000u64 - 1));
    assert_eq!(c.stack_def_bot, 0x3fff_0000_0000);
    assert_eq!(c.stack_def_size, 4096);
    assert_eq!(c.stack_init_bot, 0x3fff_ffff_f000);
    assert_eq!(c.stack_init_top, 0x3fff_ffff_fff8);
    assert_eq!(c.stack_init_top_page, 0x3fff_ffff_f000);
    let k = kernel_stack_consts(&c, 0xffff_ff02_0000_0000, 1);
    assert_eq!(k.kstack_def_bot, 0xffff_ff01_0000_0000);
    assert_eq!(k.kstack_init_bot, 0xffff_ff01_ffff_f000);
    assert_eq!(k.kstack_init_top, 0xffff_ff01_ffff_fff8);
    assert_eq!(k.kstack_init_page, 0xffff_ff01_ffff_f000);
    assert_eq!(k.kstack_init_top_page, 0xffff_ff01_ffff_f000);
    assert!(is_on_stack(0x3fff_0000_1234, c.stack_init_bot, c.stack_start_mask));
    assert!(!is_on_stack(0x3ffe_ffff_ffff, c.stack_init_bot, c.stack_start_mask));
}

#[test]
fn stack_growth_plans() {
    let bottom = 0x3fff_ffff_f000u64;
    assert_eq!(
        plan_stack_growth(bottom, 1, bottom - 0x1800, 0x100000),
        Ok(StackGrowth { start: bottom - 0x2000, pages: 2, usage: 3 })
    );
    assert_eq!(plan_stack_growth(bottom, 1, bottom + 8, 0x100000), Err(StackGrowError::PageAlreadyMapped));
    assert_eq!(plan_stack_growth(bottom, 1, bottom - 0x3000, 2), Err(StackGrowError::TooLarge));
}

#[test]
fn date_to_nanoseconds() {
    assert_eq!(nanos_since_2000(2000, 1, 1, 0, 0, 0, 0), 0);
    assert_eq!(nanos_since_2000(2000, 1, 2, 0, 0, 1, 5), 86_401_000_000_005);
    assert_eq!(nanos_since_2000(2000, 3, 1, 0, 0, 0, 0), 60 * 86_400_000_000_000);
    assert_eq!(nanos_since_2001_march(), 424 * 86_400_000_000_000);
    assert_eq!(nanos_since_2000(2024, 1, 1, 0, 0, 0, 0), 8766 * 86_400_000_000_000);
}

fn nanos_since_2001_march() -> u64 {
    nanos_since_2000(2001, 3, 1, 0, 0, 0, 0)
}

#[test]
fn nanoseconds_to_date() {
    assert_eq!(unix_parts(0), (946_713_600, 0));
    let dt = nanos_to_datetime(nanos_since_2000(2024, 5, 17, 4, 30, 15, 123));
    assert_eq!(dt.to_string(), "2024-05-17 12:30:15.000000123");
    assert!(sleep_elapsed(10, 30, 20));
    assert!(!sleep_elapsed(10, 29, 20));
}

#[test]
fn keys_come_out_in_order() {
    let mut buf = InputBuffer::init();
    assert_eq!(try_pop_key(&mut buf), None);
    push_key(&mut buf, b'a');
    push_key(&mut buf, b'b');
    assert_eq!(try_pop_key(&mut buf), Some(b'a'));
    assert_eq!(try_pop_key(&mut buf), Some(b'b'));
    for i in 0..200u32 {
        push_key(&mut buf, (i % 256) as u8);
    }
    let mut n = 0;
    while let Some(k) = try_pop_key(&mut buf) {
        assert_eq!(k, (n % 256) as u8);
        n += 1;
    }
    assert_eq!(n, 128);
}

fn feed_all(ed: &mut LineEditor, bytes: &[u8]) -> Vec<LineEvent> {
    bytes.iter().map(|b| ed.feed(*b)).collect()
}

#[test]
fn line_editor_builds_utf8_lines() {
    let mut ed = LineEditor::new();
    let events = feed_all(&mut ed, "hé".as_bytes());
    assert_eq!(events, vec![
        LineEvent::Echo { ch: 'h' },
        LineEvent::Nothing,
        LineEvent::Echo { ch: 'é' },
    ]);
    assert_eq!(ed.feed(0x7f), LineEvent::Erase { width: 2 });
    assert_eq!(ed.feed(0x08), LineEvent::Erase { width: 1 });
    assert_eq!(ed.feed(0x08), LineEvent::Nothing);
    feed_all(&mut ed, b"ok");
    assert_eq!(ed.feed(b'\r'), LineEvent::Done);
    assert_eq!(ed.line.iter().collect::<String>(), "ok");
}

#[test]
fn line_editor_skips_escapes_and_controls() {
    let mut ed = LineEditor::new();
    let events = feed_all(&mut ed, b"a\x1b[1;5Cb\x01\tc\x1bOd");
    assert_eq!(ed.line.iter().collect::<String>(), "abc");
    assert_eq!(events.iter().filter(|e| matches!(e, LineEvent::Echo { .. })).count(), 3);
    let mut bad = LineEditor::new();
    assert_eq!(bad.feed(0xff), LineEvent::Nothing);
    assert_eq!(bad.feed(b'x'), LineEvent::Echo { ch: 'x' });
    assert!(is_ignored_ctrl(0x1f));
    assert!(!is_ignored_ctrl(0x0a));
    assert!(!is_ignored_ctrl(b'a'));
}

#[test]
fn byte_line_reader() {
    let mut line = Vec::new();
    assert_eq!(read_line_feed(&mut line, b'h'), LineEvent::Echo { ch: 'h' });
    assert_eq!(read_line_feed(&mut line, b'i'), LineEvent::Echo { ch: 'i' });
    assert_eq!(read_line_feed(&mut line, 0x7f), LineEvent::Erase { width: 1 });
    assert_eq!(read_line_feed(&mut line, b'\n'), LineEvent::Done);
    assert_eq!(line, vec!['h']);
    let mut empty = Vec::new();
    assert_eq!(read_line_feed(&mut empty, 0x08), LineEvent::Nothing);
}

#[test]
fn process_numbers_and_ticks() {
    let mut c = PidCounter::new();
    let a = ProcessId::new(&mut c);
    let b = ProcessId::new(&mut c);
    assert_eq!((a.as_u16(), b.as_u16()), (1, 2));
    assert_eq!(kernel_pid(), ProcessId(1));
    let mut clock = ClockCounter::new();
    assert_eq!(inc_counter(&mut clock), 0);
    assert_eq!(read_counter(&clock), 1);
    clock.ticks = u64::MAX;
    assert_eq!(inc_counter(&mut clock), u64::MAX);
    assert_eq!(read_counter(&clock), 0);
    assert!(still_alive(ProgramStatus::Blocked));
    assert!(!still_alive(ProgramStatus::Dead));
}

#[test]
fn process_stacks_are_one_slot_apart() {
    let consts = stack_consts(0x0000_4000_0000_0000, 0x100000, 1);
    let first = init_proc_stack(&consts, 2);
    assert_eq!(first, ProcStack { bot: 0x3FFF_FFFF_F000, top: 0x3FFF_FFFF_FFF8 });
    let second = init_proc_stack(&consts, 3);
    assert_eq!(second, ProcStack { bot: 0x3FFE_FFFF_F000, top: 0x3FFE_FFFF_FFF8 });
    assert!(second.top < first.bot);
}

#[test]
fn fork_moves_stack_registers_to_child_slot() {
    let r = fork_regs(2, 3, 0x1_0000_0000, 0x3FFF_FFFF_FF00, 0x3FFF_FFFF_FF80, 0x3FFF_FFFF_F000, 0x4000_0000_0000);
    assert_eq!(r, ForkRegs { stack_pointer: 0x3FFE_FFFF_FF00, rbp: 0x3FFE_FFFF_FF80, rax: 0 });
    // A frame pointer outside the parent's stack is kept.
    let r = fork_regs(2, 4, 0x1_0000_0000, 0x3FFF_FFFF_FF00, 0x1234, 0x3FFF_FFFF_F000, 0x4000_0000_0000);
    assert_eq!(r.stack_pointer, 0x3FFD_FFFF_FF00);
    assert_eq!(r.rbp, 0x1234);
}

#[test]
fn unknown_semaphore_operation_is_answered_max() {
    let unknown = SyscallArgs::new(Syscall::Sem, 9, 7, 0);
    assert_eq!(sem_direct_answer(sys_sem(&unknown)), Some(usize::MAX));
    assert_eq!(sem_direct_answer(SemOp::Wait { key: 7 }), None);
    assert_eq!(sem_direct_answer(SemOp::New { key: 1, value: 2 }), None);
}

#[test]
fn create_dir_system_call_answers() {
    let mut disk = RamDisk::new(64);
    TmpFs::<RamDisk>::format(&mut disk, 64, 16).unwrap();
    let mut vfs = VirtualFileSystem::new();
    vfs.mount(MountedFs::Tmp(TmpFs::new(disk)), "/tmp");
    let args = SyscallArgs::new(Syscall::CreateDir, 0x1000, 8, 0);
    assert_eq!(sys_create_dir(&mut vfs, &args, b"/tmp/new"), 0);
    assert_eq!(vfs.path_exists("/tmp/new"), Ok(true));
    let deep = SyscallArgs::new(Syscall::CreateDir, 0x1000, 14, 0);
    assert_eq!(sys_create_dir(&mut vfs, &deep, b"/tmp/missing/x"), usize::MAX);
    let null = SyscallArgs::new(Syscall::CreateDir, 0, 8, 0);
    assert_eq!(sys_create_dir(&mut vfs, &null, b"/tmp/two"), usize::MAX);
    assert_eq!(vfs.path_exists("/tmp/two"), Ok(false));
    assert_eq!(sys_create_dir(&mut vfs, &args, &[0xFF, 0xFE]), usize::MAX);
    let other = SyscallArgs::new(Syscall::CreateDir, 0x1000, 6, 0);
    assert_eq!(sys_create_dir(&mut vfs, &other, b"/other"), usize::MAX);
}

fn identify_words(serial: &[u8], model: &[u8], blocks: u32) -> [u16; 256] {
    let mut bytes = [b' '; 512];
    bytes[20..20 + serial.len()].copy_from_slice(serial);
    bytes[54..54 + model.len()].copy_from_slice(model);
    let mut words = [0u16; 256];
    for k in 0..256 {
        words[k] = u16::from_be_bytes([bytes[2 * k], bytes[2 * k + 1]]);
    }
    words[60] = (blocks & 0xFFFF) as u16;
    words[61] = (blocks >> 16) as u16;
    words
}

#[test]
fn ata_identify_data_is_decoded() {
    let words = identify_words(b"QM00001", b"QEMU HARDDISK", 0x0002_1234);
    let drive = AtaDrive::open(0, 1, Some(&words)).unwrap();
    assert_eq!((drive.bus, drive.drive), (0, 1));
    assert_eq!(drive.block_count(), 0x0002_1234);
    assert_eq!(drive.serial(), "QM00001");
    assert_eq!(drive.model(), "QEMU HARDDISK");
    assert!(AtaDrive::open(1, 0, None).is_none());
    let odd = identify_words(b"  X\xFFY", b"", 7);
    let drive = AtaDrive::open(1, 0, Some(&odd)).unwrap();
    assert_eq!(drive.serial(), "X\u{FFFD}Y");
    assert_eq!(drive.model(), "");
    assert_eq!(drive.block_count(), 7);
}

#[test]
fn open_and_create_file_system_calls() {
    let mut disk = RamDisk::new(64);
    TmpFs::<RamDisk>::format(&mut disk, 64, 16).unwrap();
    let mut vfs = VirtualFileSystem::new();
    vfs.mount(MountedFs::Tmp(TmpFs::new(disk)), "/tmp");
    let create = SyscallArgs::new(Syscall::CreateFile, 0x1000, 10, 0);
    let made = sys_create_file(&mut vfs, &create, b"/tmp/a.txt").unwrap();
    assert_eq!(made.meta.name, "a.txt");
    let open = SyscallArgs::new(Syscall::Open, 0x1000, 10, 0);
    assert!(matches!(sys_open(&vfs, &open, b"/tmp/a.txt"), Ok(OpenFile::Tmp(_))));
    assert!(matches!(sys_open(&vfs, &open, b"/tmp/b.txt"), Err(0xFF)));
    assert!(matches!(sys_open(&vfs, &open, b"/tmp"), Err(0xFF)));
    let null = SyscallArgs::new(Syscall::Open, 0, 10, 0);
    assert!(matches!(sys_open(&vfs, &null, b"/tmp/a.txt"), Err(0xFF)));
    let deep = SyscallArgs::new(Syscall::CreateFile, 0x1000, 12, 0);
    assert!(matches!(sys_create_file(&mut vfs, &deep, b"/tmp/no/b.tx"), Err(0xFF)));
    assert!(matches!(sys_create_file(&mut vfs, &null, b"/tmp/c.txt"), Err(0xFF)));
    assert_eq!(vfs.path_exists("/tmp/c.txt"), Ok(false));
}
