//! System call decoding: the number and raw arguments a task passes in its
//! registers become a request, or the error the task gets back, and a
//! request's outcome becomes the value left in the return register.
use vstd::prelude::*;
use crate::addr::{UserBuf, UserBufMut, UserPtr};
use crate::errno::{Errno, errno_code};
use crate::error::{Error, error_to_errno};
use crate::task::{Pid, RawWaitStatus};
use crate::vsfs::{BlockDevice, VfsError, Vsfs};
use crate::file_table::{FileRef, FileTable, WriteDone};

verus! {

pub const SYS_IOCTL: u64 = 29;
pub const SYS_OPEN: u64 = 56;
pub const SYS_CLOSE: u64 = 57;
pub const SYS_READ: u64 = 63;
pub const SYS_WRITE: u64 = 64;
pub const SYS_READV: u64 = 65;
pub const SYS_WRITEV: u64 = 66;
pub const SYS_PREADV: u64 = 69;
pub const SYS_PWRITEV: u64 = 70;
pub const SYS_EXIT: u64 = 93;
pub const SYS_SLEEP_MS: u64 = 101;
pub const SYS_GETTID: u64 = 178;
pub const SYS_BRK: u64 = 214;
pub const SYS_WAIT: u64 = 260;
pub const SYS_SPAWN: u64 = 6;

/// A decoded system call.
#[derive(Debug)]
pub enum Syscall {
    /// Read up to `count` bytes from `fd` into a user buffer.
    Read { fd: u64, buf: UserBufMut, count: u64 },
    /// Write `count` bytes of a user buffer to `fd`.
    Write { fd: u64, buf: UserBuf, count: u64 },
    /// End the task with the exit code.
    Exit { exit_code: i8 },
    /// Sleep for some milliseconds.
    SleepMs { time_ms: u64 },
    /// Move the program break.
    Brk { brk: u64 },
    /// Wait for a child and store its status.
    Wait { out_wstatus: UserPtr<RawWaitStatus> },
    /// Start a program with arguments and store its pid.
    Spawn { out_pid: UserPtr<Pid>, path: UserBuf, argv: UserPtr<UserPtr<u8>> },
    /// Open a file with flags.
    Open { path: UserBuf, flags: u32 },
    /// Close a file descriptor.
    Close { fd: u32 },
}

/// Decodes system call `number` with raw arguments `a0`, `a1`, `a2`: a
/// null buffer address is an invalid argument and an unknown number is not
/// implemented.
pub fn decode_syscall(number: u64, a0: u64, a1: u64, a2: u64) -> (r: Result<Syscall, Error>)
    ensures
        number == SYS_READ ==> if a1 == 0 {
            r matches Err(Error::InvalidArgs)
        } else {
            r matches Ok(Syscall::Read { fd, buf, count }) && fd == a0 && buf.0.0@ == a1 && count
                == a2
        },
        number == SYS_WRITE ==> if a1 == 0 {
            r matches Err(Error::InvalidArgs)
        } else {
            r matches Ok(Syscall::Write { fd, buf, count }) && fd == a0 && buf.0@ == a1 && count == a2
        },
        number == SYS_EXIT ==> (r matches Ok(Syscall::Exit { exit_code }) && exit_code == a0 as i8),
        number == SYS_SLEEP_MS ==> (r matches Ok(Syscall::SleepMs { time_ms }) && time_ms == a0),
        number == SYS_BRK ==> (r matches Ok(Syscall::Brk { brk }) && brk == a0),
        number == SYS_WAIT ==> (r matches Ok(Syscall::Wait { out_wstatus }) && out_wstatus.addr@ == a0),
        number == SYS_SPAWN ==> if a1 == 0 {
            r matches Err(Error::InvalidArgs)
        } else {
            r matches Ok(Syscall::Spawn { out_pid, path, argv }) && out_pid.addr@ == a0 && path.0@
                == a1 && argv.addr@ == a2
        },
        number == SYS_OPEN ==> if a0 == 0 {
            r matches Err(Error::InvalidArgs)
        } else {
            r matches Ok(Syscall::Open { path, flags }) && path.0@ == a0 && flags == a1 as u32
        },
        number == SYS_CLOSE ==> (r matches Ok(Syscall::Close { fd }) && fd == a0 as u32),
        !known_syscall(number) ==> r matches Err(Error::NoSys),
{
    if number == SYS_READ {
        match UserBufMut::new(a1) {
            Some(buf) => Ok(Syscall::Read { fd: a0, buf, count: a2 }),
            None => Err(Error::InvalidArgs),
        }
    } else if number == SYS_WRITE {
        match UserBuf::new(a1) {
            Some(buf) => Ok(Syscall::Write { fd: a0, buf, count: a2 }),
            None => Err(Error::InvalidArgs),
        }
    } else if number == SYS_EXIT {
        Ok(Syscall::Exit { exit_code: a0 as i8 })
    } else if number == SYS_SLEEP_MS {
        Ok(Syscall::SleepMs { time_ms: a0 })
    } else if number == SYS_BRK {
        Ok(Syscall::Brk { brk: a0 })
    } else if number == SYS_WAIT {
        Ok(Syscall::Wait { out_wstatus: UserPtr::new(a0) })
    } else if number == SYS_SPAWN {
        let out_pid = UserPtr::new(a0);
        match UserBuf::new(a1) {
            Some(path) => Ok(Syscall::Spawn { out_pid, path, argv: UserPtr::new(a2) }),
            None => Err(Error::InvalidArgs),
        }
    } else if number == SYS_OPEN {
        match UserBuf::new(a0) {
            Some(path) => Ok(Syscall::Open { path, flags: a1 as u32 }),
            None => Err(Error::InvalidArgs),
        }
    } else if number == SYS_CLOSE {
        Ok(Syscall::Close { fd: a0 as u32 })
    } else {
        Err(Error::NoSys)
    }
}

/// The system calls the kernel serves.
pub open spec fn known_syscall(n: u64) -> bool {
    n == SYS_READ || n == SYS_WRITE || n == SYS_EXIT || n == SYS_SLEEP_MS || n == SYS_BRK || n == SYS_WAIT || n == SYS_SPAWN || n == SYS_OPEN || n == SYS_CLOSE
}

/// The value a task finds in its return register: the result, or the
/// negated error number.
pub open spec fn return_value(r: Result<i64, Error>) -> int {
    match r {
        Ok(v) => v as int,
        Err(e) => -errno_code(error_to_errno(e)),
    }
}

/// Converts a system call's outcome into the value of the return register.
pub fn syscall_return_value(r: Result<i64, Error>) -> (v: i64)
    ensures
        v == return_value(r),
{
    match r {
        Ok(v) => v,
        Err(err) => -(err.into_errno().code() as i64),
    }
}

/// Flags of `open`, as Linux numbers them.
pub const O_RDONLY: u32 = 0o0000000;
pub const O_WRONLY: u32 = 0o0000001;
pub const O_RDWR: u32 = 0o0000002;
pub const O_ACCMODE: u32 = 0o0000003;
pub const O_CREAT: u32 = 0o0000100;
pub const O_EXCL: u32 = 0o0000200;
pub const O_NOCTTY: u32 = 0o0000400;
pub const O_TRUNC: u32 = 0o0001000;
pub const O_APPEND: u32 = 0o0002000;
pub const O_NONBLOCK: u32 = 0o0004000;
pub const O_DSYNC: u32 = 0o0010000;
pub const O_ASYNC: u32 = 0o0020000;
pub const O_DIRECT: u32 = 0o0040000;
pub const O_LARGEFILE: u32 = 0o0100000;
pub const O_DIRECTORY: u32 = 0o0200000;
pub const O_NOFOLLOW: u32 = 0o0400000;
pub const O_NOATIME: u32 = 0o1000000;
pub const O_CLOEXEC: u32 = 0o2000000;
pub const O_SYNC: u32 = 0o4010000;
pub const O_PATH: u32 = 0o10000000;
pub const O_TMPFILE: u32 = 0o20200000;
/// Every known flag bit.
pub const O_KNOWN: u32 = 0o37777703;

/// Accepts `open` flags made only of known bits.
pub fn open_flags_from_bits(flags: u32) -> (r: Option<u32>)
    ensures
        r == (if flags & !O_KNOWN == 0 { Some(flags) } else { None::<u32> }),
{
    if flags & !O_KNOWN == 0 {
        Some(flags)
    } else {
        None
    }
}

/// What `open` does once the path has been looked up.
#[derive(Clone, Copy, Debug, PartialEq, Eq, Structural)]
pub enum OpenAction {
    /// Add the opened file to the task's file table.
    AddFile,
    /// Create the file, then add it.
    Create,
}

/// Why `open` fails.
#[derive(Clone, Copy, Debug, PartialEq, Eq, Structural)]
pub enum OpenError {
    /// Flags with unknown bits, or an empty path.
    InvalidArgs,
    /// The file exists and both `O_CREAT` and `O_EXCL` were given.
    Exists,
    /// The lookup failed.
    Vfs(VfsError),
}

/// The decision of `open` for `flags` and the outcome of looking the path
/// up: an existing file is refused under `O_CREAT | O_EXCL`, a missing one is
/// created under `O_CREAT`.
pub open spec fn open_decision_spec(flags: u32, lookup: Result<(), VfsError>) -> Result<
    OpenAction,
    OpenError,
> {
    match lookup {
        Ok(()) => if flags & (O_CREAT | O_EXCL) == (O_CREAT | O_EXCL) {
            Err(OpenError::Exists)
        } else {
            Ok(OpenAction::AddFile)
        },
        Err(VfsError::NotFound) => if flags & O_CREAT != O_CREAT {
            Err(OpenError::Vfs(VfsError::NotFound))
        } else {
            Ok(OpenAction::Create)
        },
        Err(e) => Err(OpenError::Vfs(e)),
    }
}

/// Law: what `open` decides for known flags, by the lookup's outcome. A
/// missing file is created exactly when the `O_CREAT` bit (0o100) is set,
/// whatever the access mode, and otherwise reported missing; an existing
/// file is refused exactly when both `O_CREAT` and `O_EXCL` (0o200) are
/// set, and otherwise opened; any other lookup error is passed on.
pub proof fn lemma_open_decision_law(flags: u32, lookup: Result<(), VfsError>)
    ensures
        lookup == Err::<(), VfsError>(VfsError::NotFound) && flags & 0o100u32 != 0 ==> open_decision_spec(
            flags,
            lookup,
        ) == Ok::<OpenAction, OpenError>(OpenAction::Create),
        lookup == Err::<(), VfsError>(VfsError::NotFound) && flags & 0o100u32 == 0 ==> open_decision_spec(
            flags,
            lookup,
        ) == Err::<OpenAction, OpenError>(OpenError::Vfs(VfsError::NotFound)),
        lookup is Ok && flags & 0o300u32 == 0o300u32 ==> open_decision_spec(flags, lookup) == Err::<
            OpenAction,
            OpenError,
        >(OpenError::Exists),
        lookup is Ok && flags & 0o300u32 != 0o300u32 ==> open_decision_spec(flags, lookup) == Ok::<
            OpenAction,
            OpenError,
        >(OpenAction::AddFile),
        lookup is Err && lookup->Err_0 != VfsError::NotFound ==> open_decision_spec(flags, lookup) == Err::<
            OpenAction,
            OpenError,
        >(OpenError::Vfs(lookup->Err_0)),
{
    assert(flags & 0o100u32 != 0 <==> flags & 0o100u32 == 0o100u32) by (bit_vector);
    assert(O_CREAT | O_EXCL == 0o300u32) by (bit_vector);
}

/// Decides what `open` does with `flags` and the lookup's outcome, after
/// checking the flags and the path length.
pub fn open_decision(flags: u32, path_len: usize, lookup: Result<(), VfsError>) -> (r: Result<
    OpenAction,
    OpenError,
>)
    ensures
        flags & !O_KNOWN != 0 ==> r == Err::<OpenAction, OpenError>(OpenError::InvalidArgs),
        flags & !O_KNOWN == 0 && path_len == 0 ==> r == Err::<OpenAction, OpenError>(
            OpenError::InvalidArgs,
        ),
        flags & !O_KNOWN == 0 && path_len > 0 ==> r == open_decision_spec(flags, lookup),
{
    let flags = match open_flags_from_bits(flags) {
        Some(f) => f,
        None => return Err(OpenError::InvalidArgs),
    };
    if path_len == 0 {
        return Err(OpenError::InvalidArgs);
    }
    match lookup {
        Ok(()) => {
            if flags & (O_CREAT | O_EXCL) == (O_CREAT | O_EXCL) {
                return Err(OpenError::Exists);
            }
            Ok(OpenAction::AddFile)
        },
        Err(VfsError::NotFound) => {
            if flags & O_CREAT != O_CREAT {
                return Err(OpenError::Vfs(VfsError::NotFound));
            }
            Ok(OpenAction::Create)
        },
        Err(e) => Err(OpenError::Vfs(e)),
    }
}

/// Whether descriptor `fd` of the slots `s` is open.
pub open spec fn fd_open(s: Seq<Option<FileRef>>, fd: u32) -> bool {
    (fd as int) < s.len() && s[fd as int] is Some
}

/// The `close` system call on the task's file table: an open descriptor
/// is closed, any other is a bad descriptor.
pub fn do_syscall_close(files: &mut FileTable, fd: u32) -> (r: Result<(), Error>)
    ensures
        fd_open(old(files).view(), fd) ==> r is Ok && final(files).view() == old(files).view().update(
            fd as int,
            None,
        ),
        !fd_open(old(files).view(), fd) ==> r == Err::<(), Error>(Error::Errno(Errno::EBadF))
            && final(files).view() == old(files).view(),
{
    match files.close_file(fd as usize) {
        Some(_) => Ok(()),
        None => {
            proof {
                if (fd as int) < old(files).view().len() {
                    assert(files.view() =~= old(files).view());
                }
            }
            Err(Error::Errno(Errno::EBadF))
        },
    }
}

/// Why a `read` or `write` system call fails.
#[derive(Clone, Copy, Debug, PartialEq, Eq, Structural)]
pub enum FileIoError {
    /// No file is open on the descriptor.
    NotFound,
    /// The file refused the request.
    Vfs(VfsError),
}

/// The file open on descriptor `fd` of the slots `s`, if any.
pub open spec fn slot_of(s: Seq<Option<FileRef>>, fd: u64) -> Option<FileRef> {
    if (fd as int) < s.len() {
        s[fd as int]
    } else {
        None
    }
}

/// The file open on descriptor `fd`, if any.
fn file_of(files: &FileTable, fd: u64) -> (r: Option<FileRef>)
    ensures
        r == slot_of(files.view(), fd),
{
    if fd < files.slots.len() as u64 {
        files.slots[fd as usize]
    } else {
        None
    }
}

/// The `write` system call on `data`, the bytes copied in from the user:
/// with nothing to write it answers 0 at once; a descriptor with no open
/// file is not found; otherwise the file takes the bytes (see
/// [`FileRef::write`]) and, when it moved, is kept with its new offset.
pub fn do_syscall_write<BD: BlockDevice>(files: &mut FileTable, fs: &mut Vsfs<BD>, fd: u64, data: &Vec<u8>) -> (r:
    Result<WriteDone, FileIoError>)
    ensures
        final(fs).superblock == old(fs).superblock,
        data@.len() == 0 ==> r == Ok::<WriteDone, FileIoError>(WriteDone { count: 0, to_console: false })
            && final(files).view() == old(files).view() && final(fs).disk() == old(fs).disk(),
        data@.len() > 0 && slot_of(old(files).view(), fd) is None ==> r == Err::<WriteDone, FileIoError>(
            FileIoError::NotFound,
        ) && final(files).view() == old(files).view() && final(fs).disk() == old(fs).disk(),
        data@.len() > 0 && slot_of(old(files).view(), fd) is Some ==> ({
            let f = slot_of(old(files).view(), fd)->0;
            exists|f1: FileRef, w: Result<WriteDone, VfsError>|
                {
                    &&& f.write_outcome(old(fs).disk(), data@, w, f1, final(fs).disk())
                    &&& r == match w {
                        Ok(d) => Ok::<WriteDone, FileIoError>(d),
                        Err(e) => Err(FileIoError::Vfs(e)),
                    }
                    &&& final(files).view() == old(files).view().update(fd as int, Some(f1))
                }
        }),
{
    if data.len() == 0 {
        return Ok(WriteDone { count: 0, to_console: false });
    }
    let mut f = match file_of(files, fd) {
        Some(f) => f,
        None => return Err(FileIoError::NotFound),
    };
    let ghost f0 = f;
    let ghost d0 = fs.disk();
    let w = f.write(fs, data.as_slice());
    proof {
        assert(f0.write_outcome(d0, data@, w, f, fs.disk()));
    }
    files.slots.set(fd as usize, Some(f));
    match w {
        Ok(d) => Ok(d),
        Err(e) => Err(FileIoError::Vfs(e)),
    }
}

/// The `read` system call into `buf`, the kernel buffer of the count the
/// user asked for: with nothing to read it answers 0 at once; a descriptor
/// with no open file is not found; otherwise the file is read (see
/// [`FileRef::read`]) and, when it moved, kept with its new offset. The
/// caller copies the bytes read out to the user.
pub fn do_syscall_read<BD: BlockDevice>(files: &mut FileTable, fs: &Vsfs<BD>, fd: u64, buf: &mut Vec<u8>) -> (r:
    Result<usize, FileIoError>)
    ensures
        final(buf).len() == old(buf).len(),
        old(buf).len() == 0 ==> r == Ok::<usize, FileIoError>(0) && final(files).view() == old(files).view(),
        old(buf).len() > 0 && slot_of(old(files).view(), fd) is None ==> r == Err::<usize, FileIoError>(
            FileIoError::NotFound,
        ) && final(files).view() == old(files).view() && final(buf)@ == old(buf)@,
        old(buf).len() > 0 && slot_of(old(files).view(), fd) is Some ==> ({
            let f = slot_of(old(files).view(), fd)->0;
            exists|f1: FileRef, x: Result<usize, VfsError>|
                {
                    &&& f.read_outcome(fs.disk(), old(buf)@, x, f1, final(buf)@)
                    &&& r == match x {
                        Ok(n) => Ok::<usize, FileIoError>(n),
                        Err(e) => Err(FileIoError::Vfs(e)),
                    }
                    &&& final(files).view() == old(files).view().update(fd as int, Some(f1))
                }
        }),
{
    if buf.len() == 0 {
        return Ok(0);
    }
    let mut f = match file_of(files, fd) {
        Some(f) => f,
        None => return Err(FileIoError::NotFound),
    };
    let ghost f0 = f;
    let ghost b0 = buf@;
    let x = f.read(fs, buf);
    proof {
        assert(f0.read_outcome(fs.disk(), b0, x, f, buf@));
    }
    files.slots.set(fd as usize, Some(f));
    match x {
        Ok(n) => Ok(n),
        Err(e) => Err(FileIoError::Vfs(e)),
    }
}

} // verus!
