//! System call numbers, their arguments, and how the kernel reads them.
use vstd::prelude::*;
use vstd::string::StringSliceAdditionalSpecFns;
use vstd::utf8::valid_utf8;

use crate::drivers::filesystem::{
    dir_fits_at, file_fits_at, vfs_dir_created, vfs_file_created, vfs_opened, VirtualFileSystem,
};
use crate::drivers::mounted::OpenFile;
use crate::storage::tmpfs::fs::FileHandle;
use crate::storage::block::BlockDevice;
use crate::storage::error::FsResult;
use crate::storage::text::str_from_utf8;

verus! {

/// The system calls, each with the number that user programs pass in.
#[derive(Clone, Copy, Debug, PartialEq, Eq, Structural)]
pub enum Syscall {
    Read,
    Write,
    Brk,
    GetPid,
    Fork,
    Spawn,
    Exit,
    WaitPid,
    Open,
    Close,
    CreateFile,
    CreateDir,
    Cat,
    ListDir,
    Sem,
    Time,
    ListApp,
    Stat,
    Allocate,
    Deallocate,
    Unknown,
}

/// The system call that number `n` selects; every number without a call of
/// its own selects `Unknown`.
pub open spec fn syscall_of(n: usize) -> Syscall {
    if n == 0 {
        Syscall::Read
    } else if n == 1 {
        Syscall::Write
    } else if n == 12 {
        Syscall::Brk
    } else if n == 39 {
        Syscall::GetPid
    } else if n == 58 {
        Syscall::Fork
    } else if n == 59 {
        Syscall::Spawn
    } else if n == 60 {
        Syscall::Exit
    } else if n == 61 {
        Syscall::WaitPid
    } else if n == 65520 {
        Syscall::Open
    } else if n == 65521 {
        Syscall::Close
    } else if n == 65522 {
        Syscall::CreateFile
    } else if n == 65523 {
        Syscall::CreateDir
    } else if n == 65527 {
        Syscall::Cat
    } else if n == 65528 {
        Syscall::ListDir
    } else if n == 65529 {
        Syscall::Sem
    } else if n == 65530 {
        Syscall::Time
    } else if n == 65531 {
        Syscall::ListApp
    } else if n == 65532 {
        Syscall::Stat
    } else if n == 65533 {
        Syscall::Allocate
    } else if n == 65534 {
        Syscall::Deallocate
    } else {
        Syscall::Unknown
    }
}

impl Syscall {
    pub open spec fn spec_number(&self) -> usize {
        match self {
            Syscall::Read => 0,
            Syscall::Write => 1,
            Syscall::Brk => 12,
            Syscall::GetPid => 39,
            Syscall::Fork => 58,
            Syscall::Spawn => 59,
            Syscall::Exit => 60,
            Syscall::WaitPid => 61,
            Syscall::Open => 65520,
            Syscall::Close => 65521,
            Syscall::CreateFile => 65522,
            Syscall::CreateDir => 65523,
            Syscall::Cat => 65527,
            Syscall::ListDir => 65528,
            Syscall::Sem => 65529,
            Syscall::Time => 65530,
            Syscall::ListApp => 65531,
            Syscall::Stat => 65532,
            Syscall::Allocate => 65533,
            Syscall::Deallocate => 65534,
            Syscall::Unknown => 65535,
        }
    }

    /// The number of this system call.
    #[verifier::when_used_as_spec(spec_number)]
    pub fn number(&self) -> (r: usize)
        ensures
            r == self.spec_number(),
    {
        match self {
            Syscall::Read => 0,
            Syscall::Write => 1,
            Syscall::Brk => 12,
            Syscall::GetPid => 39,
            Syscall::Fork => 58,
            Syscall::Spawn => 59,
            Syscall::Exit => 60,
            Syscall::WaitPid => 61,
            Syscall::Open => 65520,
            Syscall::Close => 65521,
            Syscall::CreateFile => 65522,
            Syscall::CreateDir => 65523,
            Syscall::Cat => 65527,
            Syscall::ListDir => 65528,
            Syscall::Sem => 65529,
            Syscall::Time => 65530,
            Syscall::ListApp => 65531,
            Syscall::Stat => 65532,
            Syscall::Allocate => 65533,
            Syscall::Deallocate => 65534,
            Syscall::Unknown => 65535,
        }
    }

    /// The system call that number `n` selects (`Unknown` for any number
    /// without a call of its own).
    pub fn from_primitive(n: usize) -> (r: Syscall)
        ensures
            r == syscall_of(n),
    {
        if n == 0 {
            Syscall::Read
        } else if n == 1 {
            Syscall::Write
        } else if n == 12 {
            Syscall::Brk
        } else if n == 39 {
            Syscall::GetPid
        } else if n == 58 {
            Syscall::Fork
        } else if n == 59 {
            Syscall::Spawn
        } else if n == 60 {
            Syscall::Exit
        } else if n == 61 {
            Syscall::WaitPid
        } else if n == 65520 {
            Syscall::Open
        } else if n == 65521 {
            Syscall::Close
        } else if n == 65522 {
            Syscall::CreateFile
        } else if n == 65523 {
            Syscall::CreateDir
        } else if n == 65527 {
            Syscall::Cat
        } else if n == 65528 {
            Syscall::ListDir
        } else if n == 65529 {
            Syscall::Sem
        } else if n == 65530 {
            Syscall::Time
        } else if n == 65531 {
            Syscall::ListApp
        } else if n == 65532 {
            Syscall::Stat
        } else if n == 65533 {
            Syscall::Allocate
        } else if n == 65534 {
            Syscall::Deallocate
        } else {
            Syscall::Unknown
        }
    }
}

/// Every system call's number selects that call again.
pub proof fn law_syscall_number_roundtrip(s: Syscall)
    ensures
        syscall_of(s.spec_number()) == s,
{
}

/// A system call as the kernel receives it: the call and its first three
/// arguments.
#[derive(Clone, Copy)]
pub struct SyscallArgs {
    pub syscall: Syscall,
    pub arg0: usize,
    pub arg1: usize,
    pub arg2: usize,
}

impl SyscallArgs {
    pub fn new(syscall: Syscall, arg0: usize, arg1: usize, arg2: usize) -> (r: Self)
        ensures
            r == (SyscallArgs { syscall, arg0, arg1, arg2 }),
    {
        SyscallArgs { syscall, arg0, arg1, arg2 }
    }
}

/// What a semaphore system call asks for.
#[derive(Clone, Copy, Debug, PartialEq, Eq, Structural)]
pub enum SemOp {
    New { key: u32, value: usize },
    Remove { key: u32 },
    Signal { key: u32 },
    Wait { key: u32 },
    Invalid,
}

/// The semaphore operation that a semaphore system call asks for: `arg0`
/// selects it (0 new, 1 remove, 2 signal, 3 wait), `arg1` holds the key
/// (its low 32 bits) and, for a new semaphore, `arg2` the initial value.
pub open spec fn sem_op_of(args: SyscallArgs) -> SemOp {
    if args.arg0 == 0 {
        SemOp::New { key: args.arg1 as u32, value: args.arg2 }
    } else if args.arg0 == 1 {
        SemOp::Remove { key: args.arg1 as u32 }
    } else if args.arg0 == 2 {
        SemOp::Signal { key: args.arg1 as u32 }
    } else if args.arg0 == 3 {
        SemOp::Wait { key: args.arg1 as u32 }
    } else {
        SemOp::Invalid
    }
}

/// The system call that the user library makes for `op` (`Invalid` gets
/// an operation number that no operation has).
pub open spec fn sem_args_of(op: SemOp) -> SyscallArgs {
    match op {
        SemOp::New { key, value } => SyscallArgs { syscall: Syscall::Sem, arg0: 0, arg1: key as usize, arg2: value },
        SemOp::Remove { key } => SyscallArgs { syscall: Syscall::Sem, arg0: 1, arg1: key as usize, arg2: 0 },
        SemOp::Signal { key } => SyscallArgs { syscall: Syscall::Sem, arg0: 2, arg1: key as usize, arg2: 0 },
        SemOp::Wait { key } => SyscallArgs { syscall: Syscall::Sem, arg0: 3, arg1: key as usize, arg2: 0 },
        SemOp::Invalid => SyscallArgs { syscall: Syscall::Sem, arg0: 4, arg1: 0, arg2: 0 },
    }
}

/// Reads a semaphore system call: the operation it asks the kernel for.
pub fn sys_sem(args: &SyscallArgs) -> (r: SemOp)
    ensures
        r == sem_op_of(*args),
{
    let key = args.arg1 as u32;
    if args.arg0 == 0 {
        SemOp::New { key, value: args.arg2 }
    } else if args.arg0 == 1 {
        SemOp::Remove { key }
    } else if args.arg0 == 2 {
        SemOp::Signal { key }
    } else if args.arg0 == 3 {
        SemOp::Wait { key }
    } else {
        SemOp::Invalid
    }
}

/// The answer that a semaphore system call gets without any semaphore
/// being touched: an operation that no number selects is answered
/// `usize::MAX`; the four operations are answered by the semaphores
/// themselves (`None`).
pub fn sem_direct_answer(op: SemOp) -> (r: Option<usize>)
    ensures
        r == if op is Invalid {
            Some(usize::MAX)
        } else {
            None::<usize>
        },
{
    match op {
        SemOp::Invalid => Some(usize::MAX),
        _ => None,
    }
}

/// The system call that asks for semaphore operation `op`.
pub fn encode_sem(op: SemOp) -> (r: SyscallArgs)
    ensures
        r == sem_args_of(op),
{
    match op {
        SemOp::New { key, value } => SyscallArgs::new(Syscall::Sem, 0, key as usize, value),
        SemOp::Remove { key } => SyscallArgs::new(Syscall::Sem, 1, key as usize, 0),
        SemOp::Signal { key } => SyscallArgs::new(Syscall::Sem, 2, key as usize, 0),
        SemOp::Wait { key } => SyscallArgs::new(Syscall::Sem, 3, key as usize, 0),
        SemOp::Invalid => SyscallArgs::new(Syscall::Sem, 4, 0, 0),
    }
}

/// What the user library asks for, the kernel reads back: decoding the
/// system call made for a semaphore operation gives that operation.
pub proof fn law_sem_roundtrip(op: SemOp)
    ensures
        sem_op_of(sem_args_of(op)) == op,
{
    match op {
        SemOp::New { key, value } => {
            assert((key as usize) as u32 == key);
        },
        SemOp::Remove { key } => {
            assert((key as usize) as u32 == key);
        },
        SemOp::Signal { key } => {
            assert((key as usize) as u32 == key);
        },
        SemOp::Wait { key } => {
            assert((key as usize) as u32 == key);
        },
        SemOp::Invalid => {},
    }
}

/// The path argument of a system call: `arg0` points at `arg1` bytes,
/// which the caller has read into `bytes`. A null pointer with a length is
/// refused, a zero length is the empty path, and otherwise the bytes must
/// be UTF-8.
pub fn path_arg<'a>(args: &SyscallArgs, bytes: &'a [u8]) -> (r: Option<&'a str>)
    ensures
        args.arg1 > 0 && args.arg0 == 0 ==> r is None,
        args.arg1 == 0 ==> (r matches Some(s) && s@.len() == 0),
        args.arg1 > 0 && args.arg0 != 0 ==> (r is Some <==> valid_utf8(bytes@)),
        args.arg1 > 0 && args.arg0 != 0 ==> (r matches Some(s) ==> s.spec_bytes() == bytes@),
{
    if args.arg1 > 0 && args.arg0 == 0 {
        return None;
    }
    if args.arg1 == 0 {
        proof {
            reveal_strlit("");
        }
        return Some("");
    }
    match str_from_utf8(bytes) {
        Ok(s) => Some(s),
        Err(_) => None,
    }
}

/// A semaphore of user programs, known to the kernel by its key.
#[derive(Clone, Copy, Debug, PartialEq, Eq, Structural)]
pub struct Semaphore {
    pub key: u32,
}

impl Semaphore {
    pub fn new(key: u32) -> (r: Self)
        ensures
            r.key == key,
    {
        Semaphore { key }
    }

    /// The system call that creates the semaphore with `value`.
    pub fn init(&self, value: usize) -> (r: SyscallArgs)
        ensures
            r == sem_args_of(SemOp::New { key: self.key, value }),
    {
        encode_sem(SemOp::New { key: self.key, value })
    }

    /// The system call that removes the semaphore.
    pub fn destroy(&self) -> (r: SyscallArgs)
        ensures
            r == sem_args_of(SemOp::Remove { key: self.key }),
    {
        encode_sem(SemOp::Remove { key: self.key })
    }

    /// The system call that signals the semaphore.
    pub fn signal(&self) -> (r: SyscallArgs)
        ensures
            r == sem_args_of(SemOp::Signal { key: self.key }),
    {
        encode_sem(SemOp::Signal { key: self.key })
    }

    /// The system call that waits on the semaphore.
    pub fn wait(&self) -> (r: SyscallArgs)
        ensures
            r == sem_args_of(SemOp::Wait { key: self.key }),
    {
        encode_sem(SemOp::Wait { key: self.key })
    }
}

/// Whether a semaphore system call's return value reports success (zero).
pub fn sem_succeeded(ret: usize) -> (r: bool)
    ensures
        r == (ret == 0),
{
    ret == 0
}

/// The path that a system call's arguments give, where they give one (see
/// `path_arg`).
pub open spec fn path_of_args(args: SyscallArgs, bytes: Seq<u8>) -> Option<Seq<u8>> {
    if args.arg1 > 0 && args.arg0 == 0 {
        None
    } else if args.arg1 == 0 {
        Some(Seq::empty())
    } else if valid_utf8(bytes) {
        Some(bytes)
    } else {
        None
    }
}

/// The create-directory system call: the path from the arguments (see
/// `path_arg`), and the directory made there. The answer is 0 where the
/// directory was made, and `usize::MAX` where the path is refused or the
/// file system refuses it.
pub fn sys_create_dir<D: BlockDevice>(vfs: &mut VirtualFileSystem<D>, args: &SyscallArgs, bytes: &[u8]) -> (r: usize)
    requires
        old(vfs).wf(),
        path_of_args(*args, bytes@) matches Some(p) ==> dir_fits_at(old(vfs).mounts@, p),
    ensures
        final(vfs).wf(),
        path_of_args(*args, bytes@) is None ==> r == usize::MAX && final(vfs).mounts@ == old(vfs).mounts@,
        path_of_args(*args, bytes@) matches Some(p) ==> exists|res: FsResult|
            vfs_dir_created(old(vfs).mounts@, final(vfs).mounts@, p, res) && r == if res is Ok {
                0usize
            } else {
                usize::MAX
            },
{
    let path = match path_arg(args, bytes) {
        Some(p) => p,
        None => return usize::MAX,
    };
    let ghost p = path.spec_bytes();
    assert(path_of_args(*args, bytes@) == Some(p)) by {
        if args.arg1 == 0 {
            assert(p =~= Seq::<u8>::empty());
        }
    }
    let res = vfs.create_dir(path);
    assert(vfs_dir_created(old(vfs).mounts@, vfs.mounts@, p, res));
    match res {
        Ok(()) => 0,
        Err(_) => usize::MAX,
    }
}

/// The answer to an open or create-file call that fails.
pub const FILE_CALL_FAILED: usize = 0xFF;

/// The open-file system call: the path from the arguments (see `path_arg`),
/// and the file opened there, for the caller to enter among the process's
/// resources and answer with its descriptor. Where the path is refused or
/// the file cannot be opened, the answer is `FILE_CALL_FAILED`.
pub fn sys_open<D: BlockDevice>(vfs: &VirtualFileSystem<D>, args: &SyscallArgs, bytes: &[u8]) -> (r: Result<
    OpenFile,
    usize,
>)
    requires
        vfs.wf(),
    ensures
        path_of_args(*args, bytes@) is None ==> r == Err::<OpenFile, usize>(FILE_CALL_FAILED),
        path_of_args(*args, bytes@) matches Some(p) ==> exists|res: FsResult<OpenFile>|
            #[trigger] vfs_opened(vfs.mounts@, p, res) && r == match res {
                Ok(f) => Ok::<OpenFile, usize>(f),
                Err(_) => Err(FILE_CALL_FAILED),
            },
{
    let path = match path_arg(args, bytes) {
        Some(p) => p,
        None => return Err(FILE_CALL_FAILED),
    };
    let ghost p = path.spec_bytes();
    assert(path_of_args(*args, bytes@) == Some(p)) by {
        if args.arg1 == 0 {
            assert(p =~= Seq::<u8>::empty());
        }
    }
    let res = vfs.open_file(path);
    let ghost g = res;
    let r = match res {
        Ok(f) => Ok(f),
        Err(_) => Err(FILE_CALL_FAILED),
    };
    assert(vfs_opened(vfs.mounts@, p, g));
    assert(exists|res: FsResult<OpenFile>|
        #[trigger] vfs_opened(vfs.mounts@, p, res) && r == match res {
            Ok(f) => Ok::<OpenFile, usize>(f),
            Err(_) => Err(FILE_CALL_FAILED),
        });
    assert(path_of_args(*args, bytes@) matches Some(q) && q == p);
    r
}

/// The create-file system call: the path from the arguments (see
/// `path_arg`), and the empty file made and opened there, for the caller to
/// enter among the process's resources and answer with its descriptor.
/// Where the path is refused or the file cannot be made, the answer is
/// `FILE_CALL_FAILED`.
pub fn sys_create_file<D: BlockDevice>(vfs: &mut VirtualFileSystem<D>, args: &SyscallArgs, bytes: &[u8]) -> (r:
    Result<FileHandle, usize>)
    requires
        old(vfs).wf(),
        path_of_args(*args, bytes@) matches Some(p) ==> file_fits_at(old(vfs).mounts@, p),
    ensures
        final(vfs).wf(),
        path_of_args(*args, bytes@) is None ==> r == Err::<FileHandle, usize>(FILE_CALL_FAILED)
            && final(vfs).mounts@ == old(vfs).mounts@,
        path_of_args(*args, bytes@) matches Some(p) ==> exists|res: FsResult<FileHandle>|
            vfs_file_created(old(vfs).mounts@, final(vfs).mounts@, p, res) && r == match res {
                Ok(f) => Ok::<FileHandle, usize>(f),
                Err(_) => Err(FILE_CALL_FAILED),
            },
{
    let path = match path_arg(args, bytes) {
        Some(p) => p,
        None => return Err(FILE_CALL_FAILED),
    };
    let ghost p = path.spec_bytes();
    assert(path_of_args(*args, bytes@) == Some(p)) by {
        if args.arg1 == 0 {
            assert(p =~= Seq::<u8>::empty());
        }
    }
    let res = vfs.create_file(path);
    assert(vfs_file_created(old(vfs).mounts@, vfs.mounts@, p, res));
    match res {
        Ok(f) => Ok(f),
        Err(_) => Err(FILE_CALL_FAILED),
    }
}

} // verus!
