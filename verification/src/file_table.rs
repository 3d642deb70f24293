//! The open files of a task, indexed by file descriptor.
use vstd::prelude::*;
use crate::vsfs::{BlockDevice, File, Type, VfsError, Vsfs, read_from, span, write_from};

verus! {

/// What a file descriptor refers to.
#[derive(Clone, Copy, Debug)]
pub enum FileRef {
    /// The console: writes go to the kernel log, reads fail.
    Console,
    /// An open VSFS file.
    Vsfs(File),
}

/// What a write to an open file answers: the count written, and whether
/// the bytes go to the console, which the caller prints.
#[derive(Clone, Copy, Debug, PartialEq, Eq, Structural)]
pub struct WriteDone {
    pub count: usize,
    pub to_console: bool,
}

impl FileRef {
    /// Wraps an open file.
    pub fn new(file: File) -> (r: FileRef)
        ensures
            r == FileRef::Vsfs(file),
    {
        FileRef::Vsfs(file)
    }

    /// What reading into a buffer holding `b0` from this file answers on
    /// device `d`, and the file `f1` and buffer `b1` it leaves: the console
    /// cannot be read; a VSFS file is read as [`File::read`] says.
    pub open spec fn read_outcome(
        self,
        d: Seq<u8>,
        b0: Seq<u8>,
        r: Result<usize, VfsError>,
        f1: FileRef,
        b1: Seq<u8>,
    ) -> bool {
        &&& b1.len() == b0.len()
        &&& match self {
            FileRef::Console => r == Err::<usize, VfsError>(VfsError::Fs) && f1 == self && b1 == b0,
            FileRef::Vsfs(f) => f1 is Vsfs && f1->Vsfs_0.inode == f.inode && if f.inode.inner.ty != Type::File {
                r == Err::<usize, VfsError>(VfsError::Fs) && b1 == b0 && f1 == self
            } else {
                let n = span(f.inode.inner.metadata.sz as int, f.offset as int, b0.len() as int);
                let out = read_from(d, f.inode.inner, false, f.offset as int, seq![], n);
                &&& b1 == out.0 + b0.subrange(out.0.len() as int, b0.len() as int)
                &&& match out.1 {
                    None => r == Ok::<usize, VfsError>(out.0.len() as usize) && f1->Vsfs_0.offset == f.offset
                        + out.0.len(),
                    Some(e) => r == Err::<usize, VfsError>(e) && f1 == self,
                }
            },
        }
    }

    /// What writing `data` to this file answers on device `d`, and the file
    /// `f1` and device `d1` it leaves: the console takes every byte, for the
    /// caller to print; a VSFS file is written as [`File::write`] says.
    pub open spec fn write_outcome(
        self,
        d: Seq<u8>,
        data: Seq<u8>,
        r: Result<WriteDone, VfsError>,
        f1: FileRef,
        d1: Seq<u8>,
    ) -> bool {
        match self {
            FileRef::Console => r == Ok::<WriteDone, VfsError>(WriteDone { count: data.len() as usize, to_console: true })
                && f1 == self && d1 == d,
            FileRef::Vsfs(f) => f1 is Vsfs && f1->Vsfs_0.inode == f.inode && if f.inode.inner.ty != Type::File {
                r == Err::<WriteDone, VfsError>(VfsError::Fs) && d1 == d && f1 == self
            } else {
                let n = span(f.inode.inner.metadata.sz as int, f.offset as int, data.len() as int);
                let out = write_from(d, f.inode.inner, false, f.offset as int, data, 0, n, None);
                &&& d1 == out.0
                &&& match out.2 {
                    None => r == Ok::<WriteDone, VfsError>(WriteDone { count: out.1 as usize, to_console: false })
                        && f1->Vsfs_0.offset == f.offset + out.1,
                    Some(e) => r == Err::<WriteDone, VfsError>(e) && f1 == self,
                }
            },
        }
    }

    /// The size of the file; the console has none.
    pub fn sz(&self) -> (r: usize)
        ensures
            r == match *self {
                FileRef::Console => 0,
                FileRef::Vsfs(f) => f.inode.inner.metadata.sz as int,
            },
    {
        match self {
            FileRef::Console => 0,
            FileRef::Vsfs(f) => f.inode.sz(),
        }
    }

    /// Reads into `buf` from the file's offset and moves the offset past
    /// what was read (see [`File::read`]); the console cannot be read.
    pub fn read<BD: BlockDevice>(&mut self, fs: &Vsfs<BD>, buf: &mut Vec<u8>) -> (r: Result<usize, VfsError>)
        ensures
            final(buf).len() == old(buf).len(),
            old(self).read_outcome(fs.disk(), old(buf)@, r, *final(self), final(buf)@),
    {
        match self {
            FileRef::Console => Err(VfsError::Fs),
            FileRef::Vsfs(f) => f.read(fs, buf),
        }
    }

    /// Writes `data` at the file's offset, within its size, and moves the
    /// offset past what was written (see [`File::write`]); the console takes
    /// every byte.
    pub fn write<BD: BlockDevice>(&mut self, fs: &mut Vsfs<BD>, data: &[u8]) -> (r: Result<WriteDone, VfsError>)
        ensures
            final(fs).superblock == old(fs).superblock,
            old(self).write_outcome(old(fs).disk(), data@, r, *final(self), final(fs).disk()),
    {
        match self {
            FileRef::Console => Ok(WriteDone { count: data.len(), to_console: true }),
            FileRef::Vsfs(f) => match f.write(fs, data) {
                Ok(n) => Ok(WriteDone { count: n, to_console: false }),
                Err(e) => Err(e),
            },
        }
    }
}

/// The console device.
pub struct Console {}

impl Console {
    /// The console as an open file.
    pub fn as_file() -> (r: FileRef)
        ensures
            r == FileRef::Console,
    {
        FileRef::Console
    }
}

/// Open files by descriptor; a closed descriptor leaves an empty slot that
/// a later open reuses.
pub struct FileTable {
    pub slots: Vec<Option<FileRef>>,
}

/// The first empty slot of `s`, if any.
pub open spec fn first_free(s: Seq<Option<FileRef>>, i: int) -> bool {
    &&& 0 <= i < s.len()
    &&& s[i] is None
    &&& forall|j: int| 0 <= j < i ==> #[trigger] s[j] is Some
}

impl FileTable {
    /// The slots.
    pub open spec fn view(&self) -> Seq<Option<FileRef>> {
        self.slots@
    }

    /// A table with the console open on descriptors 0, 1 and 2.
    pub fn init() -> (r: FileTable)
        ensures
            r.view() == seq![Some(FileRef::Console), Some(FileRef::Console), Some(FileRef::Console)],
    {
        let mut slots = Vec::new();
        slots.push(Some(Console::as_file()));
        slots.push(Some(Console::as_file()));
        slots.push(Some(Console::as_file()));
        FileTable { slots }
    }

    /// Puts `file` in the first empty slot, or in a new one at the end, and
    /// answers its descriptor.
    pub fn add_file(&mut self, file: FileRef) -> (r: usize)
        requires
            old(self).view().len() < usize::MAX,
        ensures
            (exists|i: int| first_free(old(self).view(), i)) ==> first_free(old(self).view(), r as int)
                && final(self).view() == old(self).view().update(r as int, Some(file)),
            !(exists|i: int| first_free(old(self).view(), i)) ==> r == old(self).view().len()
                && final(self).view() == old(self).view().push(Some(file)),
    {
        let mut i: usize = 0;
        while i < self.slots.len()
            invariant
                i <= self.slots.len(),
                self.slots@ == old(self).slots@,
                forall|j: int| 0 <= j < i ==> #[trigger] self.slots@[j] is Some,
            decreases self.slots.len() - i,
        {
            if self.slots[i].is_none() {
                assert(first_free(old(self).view(), i as int));
                self.slots.set(i, Some(file));
                return i;
            }
            i += 1;
        }
        proof {
            if exists|k: int| first_free(old(self).view(), k) {
                let k = choose|k: int| first_free(old(self).view(), k);
                assert(self.slots@[k] is Some);
            }
        }
        self.slots.push(Some(file));
        self.slots.len() - 1
    }

    /// The file open on descriptor `fd`, if any.
    pub fn get_file(&self, fd: u32) -> (r: Option<FileRef>)
        ensures
            r == (if (fd as int) < self.view().len() {
                self.view()[fd as int]
            } else {
                None
            }),
    {
        let i = fd as usize;
        if i < self.slots.len() {
            self.slots[i]
        } else {
            None
        }
    }

    /// Closes descriptor `fd`: empties its slot and answers what it held.
    pub fn close_file(&mut self, fd: usize) -> (r: Option<FileRef>)
        ensures
            fd < old(self).view().len() ==> r == old(self).view()[fd as int] && final(self).view()
                == old(self).view().update(fd as int, None),
            fd >= old(self).view().len() ==> r is None && final(self).view() == old(self).view(),
    {
        if fd < self.slots.len() {
            let f = self.slots[fd];
            self.slots.set(fd, None);
            f
        } else {
            None
        }
    }

    /// Drops every descriptor.
    pub fn destroy(&mut self)
        ensures
            final(self).view().len() == 0,
    {
        self.slots = Vec::new();
    }
}

} // verus!
