//! Loading ELF executables: reading and checking the file header and the
//! program headers from a VSFS file, and planning how the loadable segments
//! are mapped and filled. The `elf` crate parses the header fields.
use vstd::prelude::*;
use elf::parse::ParseAt;
use crate::vsfs::{
    BlockDevice, File, INode, Type, Vsfs, VfsError, le_u16, le_u32, read_from, span,
    path_components, resolve,
};
use crate::pte::{PteFlags, PTE_R, PTE_U, PTE_W, PTE_X};
use crate::addr::{VirtAddr, offset_spec, align_up_spec, align_down_spec};
use crate::mm::MemoryManager;
use crate::error::Error as KernelError;
use crate::page_meta::PageMetadataTable;
use crate::page_table::{
    FramePool, PageTable, lemma_remap_keeps_translation, lemma_same_path_flip, lemma_same_path_refl,
    remap_result, same_path,
};
use crate::pte::{leaf_bits, pte_flags, lemma_flags_or, lemma_fresh_flags};
use std::collections::BTreeMap;

verus! {

broadcast use vstd::std_specs::btree::group_btree_axioms;

/// Bytes of the ELF identification.
pub const EI_NIDENT: usize = 16;
/// Bytes of the 64-bit file header after the identification.
pub const ELF64_EHDR_TAILSIZE: usize = 48;
/// Executable file type.
pub const ET_EXEC: u16 = 2;
/// Loadable segment type.
pub const PT_LOAD: u32 = 1;
/// Program header count escape value.
pub const PN_XNUM: u16 = 0xffff;
/// Segment permission: execute.
pub const PF_X: u32 = 1;
/// Segment permission: write.
pub const PF_W: u32 = 2;
/// Segment permission: read.
pub const PF_R: u32 = 4;

#[verifier::external_type_specification]
#[verifier::external_body]
pub struct ExParseError(elf::ParseError);

/// Errors of the ELF loader.
#[derive(Debug)]
pub enum Error {
    /// The file is not an executable this loader handles.
    Unsupported,
    /// A size or address computation overflowed.
    SizeOverflow,
    /// The executable has no program headers.
    NoProgramHeadersFound,
    /// A program header is inconsistent.
    InvalidProgramHeader,
    /// A segment address is out of range.
    InvalidVirtualAddress,
    /// A program header could not be parsed.
    Parse(elf::ParseError),
}

/// Why loading an executable failed.
#[derive(Debug)]
pub enum LoadError {
    /// The executable is malformed or unsupported.
    Elf(Error),
    /// The file could not be opened or read.
    Fs(VfsError),
    /// A segment's end address is out of the address range.
    Kernel(crate::error::Error),
}

/// What went wrong in a failed load, without the parser's error detail.
#[derive(Clone, Copy, Debug, PartialEq, Eq, Structural)]
pub enum LoadFailure {
    Unsupported,
    SizeOverflow,
    NoProgramHeadersFound,
    InvalidProgramHeader,
    InvalidVirtualAddress,
    Parse,
    Fs(VfsError),
    Kernel(crate::error::Error),
}

/// The kind of a load error.
pub open spec fn failure_of(e: LoadError) -> LoadFailure {
    match e {
        LoadError::Elf(Error::Unsupported) => LoadFailure::Unsupported,
        LoadError::Elf(Error::SizeOverflow) => LoadFailure::SizeOverflow,
        LoadError::Elf(Error::NoProgramHeadersFound) => LoadFailure::NoProgramHeadersFound,
        LoadError::Elf(Error::InvalidProgramHeader) => LoadFailure::InvalidProgramHeader,
        LoadError::Elf(Error::InvalidVirtualAddress) => LoadFailure::InvalidVirtualAddress,
        LoadError::Elf(Error::Parse(_)) => LoadFailure::Parse,
        LoadError::Fs(v) => LoadFailure::Fs(v),
        LoadError::Kernel(k) => LoadFailure::Kernel(k),
    }
}

/// The identification fields the loader keeps.
#[derive(Clone, Copy, Debug, PartialEq, Eq, Structural)]
pub struct ElfIdent {
    /// 64-bit class (else 32-bit).
    pub is_64: bool,
    pub osabi: u8,
    pub abiversion: u8,
}

/// The file header fields the loader reads.
#[derive(Clone, Copy, Debug, PartialEq, Eq, Structural)]
pub struct ElfHeader {
    pub is_64: bool,
    pub e_type: u16,
    pub e_entry: u64,
    pub e_phoff: u64,
    pub e_phentsize: u16,
    pub e_phnum: u16,
}

/// A program header.
#[derive(Clone, Copy, Debug, PartialEq, Eq, Structural)]
pub struct ProgramHeader {
    pub p_type: u32,
    pub p_flags: u32,
    pub p_offset: u64,
    pub p_vaddr: u64,
    pub p_filesz: u64,
    pub p_memsz: u64,
}

/// Little-endian value of the eight bytes at `p`.
pub open spec fn le_u64(s: Seq<u8>, p: int) -> int {
    le_u32(s, p) + 4294967296 * le_u32(s, p + 4)
}

/// The identification is a little-endian ELF of a known class and the
/// current version.
pub open spec fn ident_valid(s: Seq<u8>) -> bool {
    &&& s[0] == 0x7f && s[1] == 0x45 && s[2] == 0x4c && s[3] == 0x46
    &&& s[6] == 1
    &&& s[4] == 1 || s[4] == 2
    &&& s[5] == 1
}

/// Parses the identification with `elf::file::parse_ident` for
/// little-endian files: it checks the magic bytes, the version, the class and
/// the byte order, and keeps the class, OS ABI and ABI version.
#[verifier::external_body]
fn elf_parse_ident(data: &[u8]) -> (r: Result<ElfIdent, elf::ParseError>)
    requires
        data@.len() >= 9,
    ensures
        (r is Ok) == ident_valid(data@),
        r is Ok ==> r->Ok_0 == (ElfIdent { is_64: data@[4] == 2, osabi: data@[7], abiversion: data@[8] }),
{
    match elf::file::parse_ident::<elf::endian::LittleEndian>(data) {
        Ok((_, elf::file::Class::ELF64, osabi, abiversion)) => Ok(ElfIdent { is_64: true, osabi, abiversion }),
        Ok((_, elf::file::Class::ELF32, osabi, abiversion)) => Ok(ElfIdent { is_64: false, osabi, abiversion }),
        Err(e) => Err(e),
    }
}

/// The header fields the loader reads, as the rest of the file header after
/// the identification holds them.
pub open spec fn header_of(is_64: bool, s: Seq<u8>) -> ElfHeader {
    if is_64 {
        ElfHeader {
            is_64,
            e_type: le_u16(s, 0) as u16,
            e_entry: le_u64(s, 8) as u64,
            e_phoff: le_u64(s, 16) as u64,
            e_phentsize: le_u16(s, 38) as u16,
            e_phnum: le_u16(s, 40) as u16,
        }
    } else {
        ElfHeader {
            is_64,
            e_type: le_u16(s, 0) as u16,
            e_entry: le_u32(s, 8) as u64,
            e_phoff: le_u32(s, 12) as u64,
            e_phentsize: le_u16(s, 26) as u16,
            e_phnum: le_u16(s, 28) as u16,
        }
    }
}

/// Parses the rest of the file header with `FileHeader::parse_tail`: it
/// reads the fields in order, little-endian, with 32- or 64-bit addresses by
/// class, and fails only when the bytes run out.
#[verifier::external_body]
fn elf_parse_tail(ident: ElfIdent, data: &[u8]) -> (r: Result<ElfHeader, elf::ParseError>)
    ensures
        (r is Ok) == (data@.len() >= if ident.is_64 { 48int } else { 36int }),
        r is Ok ==> r->Ok_0 == header_of(ident.is_64, data@),
{
    let class = if ident.is_64 { elf::file::Class::ELF64 } else { elf::file::Class::ELF32 };
    let id = (elf::endian::LittleEndian, class, ident.osabi, ident.abiversion);
    match elf::file::FileHeader::parse_tail(id, data) {
        Ok(h) => Ok(ElfHeader {
            is_64: ident.is_64,
            e_type: h.e_type,
            e_entry: h.e_entry,
            e_phoff: h.e_phoff,
            e_phentsize: h.e_phentsize,
            e_phnum: h.e_phnum,
        }),
        Err(e) => Err(e),
    }
}

/// The program header stored at byte `p` of `s`.
pub open spec fn program_header_of(is_64: bool, s: Seq<u8>, p: int) -> ProgramHeader {
    if is_64 {
        ProgramHeader {
            p_type: le_u32(s, p) as u32,
            p_flags: le_u32(s, p + 4) as u32,
            p_offset: le_u64(s, p + 8) as u64,
            p_vaddr: le_u64(s, p + 16) as u64,
            p_filesz: le_u64(s, p + 32) as u64,
            p_memsz: le_u64(s, p + 40) as u64,
        }
    } else {
        ProgramHeader {
            p_type: le_u32(s, p) as u32,
            p_offset: le_u32(s, p + 4) as u64,
            p_vaddr: le_u32(s, p + 8) as u64,
            p_filesz: le_u32(s, p + 16) as u64,
            p_memsz: le_u32(s, p + 20) as u64,
            p_flags: le_u32(s, p + 24) as u32,
        }
    }
}

/// Bytes of one program header of the class.
pub open spec fn ph_size(is_64: bool) -> int {
    if is_64 {
        56
    } else {
        32
    }
}

/// Parses the program header at byte `offset` with
/// `ProgramHeader::parse_at`: it reads the fields in the class's order,
/// little-endian, and fails only when the bytes run out.
#[verifier::external_body]
fn elf_parse_program_header(is_64: bool, offset: usize, data: &[u8]) -> (r: Result<
    ProgramHeader,
    elf::ParseError,
>)
    ensures
        (r is Ok) == (offset + ph_size(is_64) <= data@.len()),
        r is Ok ==> r->Ok_0 == program_header_of(is_64, data@, offset as int),
{
    let class = if is_64 { elf::file::Class::ELF64 } else { elf::file::Class::ELF32 };
    let mut off = offset;
    match elf::segment::ProgramHeader::parse_at(elf::endian::LittleEndian, class, &mut off, data) {
        Ok(p) => Ok(ProgramHeader {
            p_type: p.p_type,
            p_flags: p.p_flags,
            p_offset: p.p_offset,
            p_vaddr: p.p_vaddr,
            p_filesz: p.p_filesz,
            p_memsz: p.p_memsz,
        }),
        Err(e) => Err(e),
    }
}

/// Page-table permissions for segment permissions: always user-accessible,
/// and readable, writable, executable as the segment says.
pub open spec fn pte_flags_of(f: u32) -> PteFlags {
    let with_r = if f & PF_R != 0 {
        PTE_U | PTE_R
    } else {
        PTE_U
    };
    let with_w = if f & PF_W != 0 {
        with_r | PTE_W
    } else {
        with_r
    };
    if f & PF_X != 0 {
        with_w | PTE_X
    } else {
        with_w
    }
}

/// Converts segment permissions to page-table permissions.
pub fn convert_elf_flag_to_pte(elf_flag: u32) -> (r: PteFlags)
    ensures
        r == pte_flags_of(elf_flag),
{
    let mut flags = PTE_U;
    if elf_flag & PF_R != 0 {
        flags = flags | PTE_R;
    }
    if elf_flag & PF_W != 0 {
        flags = flags | PTE_W;
    }
    if elf_flag & PF_X != 0 {
        flags = flags | PTE_X;
    }
    flags
}

/// Reading exactly `remaining` bytes of file `i` from byte `off` on, one
/// read after another: the bytes, or the first error; a read that gets
/// nothing is malformed.
pub open spec fn exact_from(d: Seq<u8>, i: INode, off: int, remaining: int) -> Result<Seq<u8>, VfsError>
    decreases remaining,
{
    if remaining <= 0 {
        Ok(seq![])
    } else if i.inner.ty != Type::File || off < 0 {
        Err(VfsError::Fs)
    } else {
        let n = span(i.inner.metadata.sz as int, off, remaining);
        let out = read_from(d, i.inner, false, off, seq![], n);
        proof {
            crate::vsfs::lemma_read_from_len(d, i.inner, false, off, seq![], n);
        }
        match out.1 {
            Some(e) => Err(e),
            None => if out.0.len() == 0 {
                Err(VfsError::Fs)
            } else {
                match exact_from(d, i, off + out.0.len(), remaining - out.0.len()) {
                    Ok(rest) => Ok(out.0 + rest),
                    Err(e) => Err(e),
                }
            },
        }
    }
}

/// Reading exactly `len` bytes at byte `offset` of the file: the offset may
/// not pass the end of a regular file.
pub open spec fn read_exact_outcome(d: Seq<u8>, i: INode, offset: int, len: int) -> Result<
    Seq<u8>,
    VfsError,
> {
    if i.inner.ty != Type::File || offset > i.inner.metadata.sz {
        Err(VfsError::Fs)
    } else {
        exact_from(d, i, offset, len)
    }
}

/// Reads exactly `buf.len()` bytes at byte `offset` of `file` into `buf`.
pub fn read_exact_at<BD: BlockDevice>(
    fs: &Vsfs<BD>,
    file: &mut File,
    offset: usize,
    buf: &mut Vec<u8>,
) -> (r: Result<(), VfsError>)
    ensures
        final(file).inode == old(file).inode,
        final(buf).len() == old(buf).len(),
        match read_exact_outcome(fs.disk(), old(file).inode, offset as int, old(buf).len() as int) {
            Ok(bytes) => r is Ok && final(buf)@ == bytes,
            Err(e) => r == Err::<(), VfsError>(e),
        },
{
    match file.seek_start(offset) {
        Ok(_) => {},
        Err(e) => return Err(e),
    }
    let ghost d = fs.disk();
    let ghost i = file.inode;
    let len = buf.len();
    let mut n_read: usize = 0;
    let ghost mut got: Seq<u8> = seq![];
    while n_read < len
        invariant
            d == fs.disk(),
            i == file.inode,
            i == old(file).inode,
            len == old(buf).len(),
            n_read <= len,
            buf.len() == len,
            got.len() == n_read,
            file.offset == offset + n_read,
            i.inner.ty == Type::File,
            offset <= i.inner.metadata.sz,
            forall|t: int| 0 <= t < n_read ==> buf@[t] == got[t],
            exact_from(d, i, offset as int, len as int) == match exact_from(
                d,
                i,
                offset + n_read,
                len - n_read,
            ) {
                Ok(rest) => Ok(got + rest),
                Err(e) => Err::<Seq<u8>, VfsError>(e),
            },
        decreases len - n_read,
    {
        let want = len - n_read;
        let mut tmp = vec![0u8; want];
        let ghost cur = file.offset;
        let read = match file.read(fs, &mut tmp) {
            Ok(n) => n,
            Err(e) => return Err(e),
        };
        if read == 0 {
            return Err(VfsError::Fs);
        }
        proof {
            crate::vsfs::lemma_read_from_len(
                d,
                i.inner,
                false,
                cur as int,
                seq![],
                span(i.inner.metadata.sz as int, cur as int, (len - n_read) as int),
            );
        }
        let ghost chunk = tmp@.subrange(0, read as int);
        let mut k: usize = 0;
        while k < read
            invariant
                k <= read,
                n_read + read <= len,
                read <= tmp.len(),
                buf.len() == len,
                chunk == tmp@.subrange(0, read as int),
                forall|t: int| 0 <= t < n_read ==> buf@[t] == got[t],
                forall|t: int| 0 <= t < k ==> buf@[n_read + t] == chunk[t],
            decreases read - k,
        {
            buf.set(n_read + k, tmp[k]);
            k += 1;
        }
        proof {
            let rem = (len - n_read) as int;
            let out = read_from(d, i.inner, false, cur as int, seq![], span(i.inner.metadata.sz as int, cur as int, rem));
            assert(chunk =~= out.0);
            assert(exact_from(d, i, cur as int, rem) == match exact_from(d, i, cur + read, rem - read) {
                Ok(rest) => Ok(chunk + rest),
                Err(e) => Err::<Seq<u8>, VfsError>(e),
            });
            match exact_from(d, i, cur + read, rem - read) {
                Ok(r2) => {
                    assert(got + (chunk + r2) =~= (got + chunk) + r2);
                },
                Err(_) => {},
            }
            got = got + chunk;
            assert(forall|t: int| 0 <= t < n_read + read ==> buf@[t] == got[t]);
        }
        n_read += read;
    }
    assert(buf@ =~= got);
    Ok(())
}

/// The file header as the loader reads it from the start of the file: the
/// identification must be valid; the rest is always long enough to parse.
pub open spec fn elf_header_outcome(d: Seq<u8>, i: INode) -> Result<ElfHeader, VfsError> {
    match read_exact_outcome(d, i, 0, 16) {
        Err(e) => Err(e),
        Ok(ident) => if !ident_valid(ident) {
            Err(VfsError::Fs)
        } else {
            match read_exact_outcome(d, i, 16, 48) {
                Err(e) => Err(e),
                Ok(tail) => Ok(header_of(ident[4] == 2, tail)),
            }
        },
    }
}

/// Reads and parses the file header of `file`.
pub fn read_elf_header<BD: BlockDevice>(fs: &Vsfs<BD>, file: &mut File) -> (r: Result<
    ElfHeader,
    VfsError,
>)
    ensures
        final(file).inode == old(file).inode,
        r == elf_header_outcome(fs.disk(), old(file).inode),
{
    let mut ident_buf = vec![0u8; EI_NIDENT];
    match read_exact_at(fs, file, 0, &mut ident_buf) {
        Ok(()) => {},
        Err(e) => return Err(e),
    }
    let ident = match elf_parse_ident(ident_buf.as_slice()) {
        Ok(id) => id,
        Err(_) => return Err(VfsError::Fs),
    };
    let mut tail_buf = vec![0u8; ELF64_EHDR_TAILSIZE];
    match read_exact_at(fs, file, EI_NIDENT, &mut tail_buf) {
        Ok(()) => {},
        Err(e) => return Err(e),
    }
    match elf_parse_tail(ident, tail_buf.as_slice()) {
        Ok(h) => Ok(h),
        Err(_) => Err(VfsError::Fs),
    }
}

/// Scan of program headers `k..n` in `buf`, `entsize` bytes apart: `None`
/// when all parse and none holds more file bytes than memory bytes, else
/// whether the first bad one failed to parse.
pub open spec fn ph_scan(is_64: bool, buf: Seq<u8>, entsize: int, k: int, n: int) -> Option<bool>
    decreases n - k,
{
    if k >= n {
        None
    } else if k * entsize + ph_size(is_64) > buf.len() {
        Some(true)
    } else if program_header_of(is_64, buf, k * entsize).p_filesz > program_header_of(
        is_64,
        buf,
        k * entsize,
    ).p_memsz {
        Some(false)
    } else {
        ph_scan(is_64, buf, entsize, k + 1, n)
    }
}

/// The program headers read from file `i` with file header `h`, or why
/// they cannot be: an executable needs some, the escape count for more than
/// can be counted is unsupported, and each must parse and hold no more file
/// bytes than memory bytes.
pub open spec fn ph_outcome(d: Seq<u8>, i: INode, h: ElfHeader) -> Result<Seq<ProgramHeader>, LoadFailure> {
    let size = h.e_phentsize * h.e_phnum;
    if h.e_phoff == 0 || h.e_phnum == 0 {
        Err(LoadFailure::NoProgramHeadersFound)
    } else if h.e_phnum == PN_XNUM {
        Err(LoadFailure::Unsupported)
    } else if size > u16::MAX || h.e_phoff > usize::MAX {
        Err(LoadFailure::SizeOverflow)
    } else {
        match read_exact_outcome(d, i, h.e_phoff as int, size) {
            Err(e) => Err(LoadFailure::Fs(e)),
            Ok(buf) => match ph_scan(h.is_64, buf, h.e_phentsize as int, 0, h.e_phnum as int) {
                None => Ok(
                    Seq::new(h.e_phnum as nat, |k: int| program_header_of(h.is_64, buf, k * h.e_phentsize)),
                ),
                Some(true) => Err(LoadFailure::Parse),
                Some(false) => Err(LoadFailure::InvalidProgramHeader),
            },
        }
    }
}

/// Reads and parses the program headers of `file`, as [`ph_outcome`] says.
pub fn read_program_headers<BD: BlockDevice>(fs: &Vsfs<BD>, file: &mut File, header: &ElfHeader) -> (r:
    Result<Vec<ProgramHeader>, LoadError>)
    ensures
        final(file).inode == old(file).inode,
        match ph_outcome(fs.disk(), old(file).inode, *header) {
            Ok(phs) => r is Ok && r->Ok_0@ == phs,
            Err(f) => r is Err && failure_of(r->Err_0) == f,
        },
{
    if header.e_phoff == 0 || header.e_phnum == 0 {
        return Err(LoadError::Elf(Error::NoProgramHeadersFound));
    }
    if header.e_phnum == PN_XNUM {
        return Err(LoadError::Elf(Error::Unsupported));
    }
    let ph_size = match header.e_phentsize.checked_mul(header.e_phnum) {
        Some(s) => s,
        None => return Err(LoadError::Elf(Error::SizeOverflow)),
    };
    if header.e_phoff > usize::MAX as u64 {
        return Err(LoadError::Elf(Error::SizeOverflow));
    }
    let mut ph_buf = vec![0u8; ph_size as usize];
    match read_exact_at(fs, file, header.e_phoff as usize, &mut ph_buf) {
        Ok(()) => {},
        Err(e) => return Err(LoadError::Fs(e)),
    }
    let ghost buf = ph_buf@;
    let ghost entsize = header.e_phentsize as int;
    let ghost n = header.e_phnum as int;
    let mut phdrs: Vec<ProgramHeader> = Vec::new();
    let mut i: u16 = 0;
    while i < header.e_phnum
        invariant
            i <= header.e_phnum,
            ph_buf@ == buf,
            file.inode == old(file).inode,
            header.e_phoff != 0 && header.e_phnum != 0 && header.e_phnum != PN_XNUM,
            header.e_phoff <= usize::MAX,
            read_exact_outcome(
                fs.disk(),
                old(file).inode,
                header.e_phoff as int,
                header.e_phentsize * header.e_phnum,
            ) == Ok::<Seq<u8>, VfsError>(buf),
            entsize == header.e_phentsize,
            n == header.e_phnum,
            header.e_phentsize * header.e_phnum <= u16::MAX,
            phdrs@.len() == i,
            forall|k: int| 0 <= k < i ==> #[trigger] phdrs@[k] == program_header_of(header.is_64, buf, k * entsize),
            ph_scan(header.is_64, buf, entsize, 0, n) == ph_scan(header.is_64, buf, entsize, i as int, n),
        decreases header.e_phnum - i,
    {
        assert(i * header.e_phentsize <= header.e_phentsize * header.e_phnum) by (nonlinear_arith)
            requires
                i < header.e_phnum,
        ;
        let off = i * header.e_phentsize;
        let ph = match elf_parse_program_header(header.is_64, off as usize, ph_buf.as_slice()) {
            Ok(p) => p,
            Err(e) => return Err(LoadError::Elf(Error::Parse(e))),
        };
        if ph.p_filesz > ph.p_memsz {
            return Err(LoadError::Elf(Error::InvalidProgramHeader));
        }
        phdrs.push(ph);
        i += 1;
    }
    assert(phdrs@ =~= Seq::new(
        header.e_phnum as nat,
        |k: int| program_header_of(header.is_64, buf, k * header.e_phentsize),
    ));
    Ok(phdrs)
}

/// An executable opened for loading: its file, file header and program
/// headers.
pub struct Elf {
    pub file: File,
    pub header: ElfHeader,
    pub program_headers: Vec<ProgramHeader>,
}

/// Opening the executable at `path` from the root directory and reading
/// its headers: its inode, file header and program headers, or why that
/// fails; only executables are supported.
pub open spec fn load_outcome(d: Seq<u8>, ts: int, path: Seq<u8>) -> Result<
    (INode, ElfHeader, Seq<ProgramHeader>),
    LoadFailure,
> {
    match crate::vsfs::inode_node(d, ts, 1) {
        Err(e) => Err(LoadFailure::Fs(e)),
        Ok(root) => match resolve(d, ts, root, path_components(path), 0) {
            Err(e) => Err(LoadFailure::Fs(e)),
            Ok(i) => match elf_header_outcome(d, i) {
                Err(e) => Err(LoadFailure::Fs(e)),
                Ok(h) => if h.e_type != ET_EXEC {
                    Err(LoadFailure::Unsupported)
                } else {
                    match ph_outcome(d, i, h) {
                        Err(f) => Err(f),
                        Ok(phs) => Ok((i, h, phs)),
                    }
                },
            },
        },
    }
}

impl Elf {
    /// Opens the executable at `path` from the root directory and reads its
    /// headers, as [`load_outcome`] says.
    pub fn load_from_file<BD: BlockDevice>(fs: &Vsfs<BD>, path: &[u8]) -> (r: Result<Elf, LoadError>)
        ensures
            match load_outcome(fs.disk(), fs.superblock.inode_table_start as int, path@) {
                Ok((i, h, phs)) => {
                    &&& r is Ok
                    &&& r->Ok_0.file.inode == i
                    &&& r->Ok_0.header == h
                    &&& r->Ok_0.program_headers@ == phs
                },
                Err(f) => r is Err && failure_of(r->Err_0) == f,
            },
    {
        let root = match fs.root() {
            Ok(n) => n,
            Err(e) => return Err(LoadError::Fs(e)),
        };
        let mut file = match root.open(fs, path) {
            Ok(f) => f,
            Err(e) => return Err(LoadError::Fs(e)),
        };
        let header = match read_elf_header(fs, &mut file) {
            Ok(h) => h,
            Err(e) => return Err(LoadError::Fs(e)),
        };
        if header.e_type != ET_EXEC {
            return Err(LoadError::Elf(Error::Unsupported));
        }
        let program_headers = match read_program_headers(fs, &mut file, &header) {
            Ok(p) => p,
            Err(e) => return Err(e),
        };
        Ok(Elf { file, header, program_headers })
    }
}

/// One step of loading an executable into an address space.
#[derive(Clone, Copy, Debug, PartialEq, Eq, Structural)]
pub enum LoadStep {
    /// Map a fresh zeroed page at `va` with `flags`.
    MapPage { va: u64, flags: PteFlags },
    /// Give the mapped page at `va` the permissions `flags`.
    Remap { va: u64, flags: PteFlags },
    /// Copy `len` file bytes from `file_offset` to the mapped address `vaddr`.
    Copy { file_offset: u64, vaddr: u64, len: u64 },
}

/// How to load an executable: the steps in order, the initial program
/// break and the entry point.
#[derive(Clone, Debug)]
pub struct LoadPlan {
    pub steps: Vec<LoadStep>,
    pub brk: u64,
    pub entry: u64,
}

/// Steps for the pages `va, va + 4096, ...` below `end` of a segment with
/// `flags`, when `mapped` records the pages already mapped and their
/// permissions: a new page is mapped, a mapped one gets both permissions.
pub open spec fn page_steps(va: int, end: int, flags: PteFlags, mapped: Map<u64, u8>) -> (
    Seq<LoadStep>,
    Map<u64, u8>,
)
    decreases (if end > va {
        end - va
    } else {
        0
    }),
{
    if va >= end || va < 0 || va > u64::MAX {
        (seq![], mapped)
    } else {
        let step = if mapped.contains_key(va as u64) {
            LoadStep::Remap { va: va as u64, flags: mapped[va as u64] | flags }
        } else {
            LoadStep::MapPage { va: va as u64, flags }
        };
        let m2 = if mapped.contains_key(va as u64) {
            mapped.insert(va as u64, mapped[va as u64] | flags)
        } else {
            mapped.insert(va as u64, flags)
        };
        let rest = page_steps(va + 4096, end, flags, m2);
        (seq![step] + rest.0, rest.1)
    }
}

/// Copy steps for the file bytes of a segment from `copied` on: one per
/// page touched, up to the end of that page.
pub open spec fn copy_steps(vaddr: int, offset: int, filesz: int, copied: int) -> Result<
    Seq<LoadStep>,
    LoadError,
>
    decreases filesz - copied,
{
    if copied >= filesz || copied < 0 {
        Ok(seq![])
    } else if vaddr + copied > u64::MAX {
        Err(LoadError::Elf(Error::SizeOverflow))
    } else {
        let cv = vaddr + copied;
        let po = cv % 4096;
        let len = if 4096 - po < filesz - copied {
            4096 - po
        } else {
            filesz - copied
        };
        match copy_steps(vaddr, offset, filesz, copied + len) {
            Ok(rest) => Ok(
                seq![LoadStep::Copy { file_offset: (offset + copied) as u64, vaddr: cv as u64, len: len as u64 }]
                    + rest,
            ),
            Err(e) => Err(e),
        }
    }
}

/// The steps of one program header in a file of `file_sz` bytes, the pages
/// then mapped, and the page-aligned end of the segment (0 for a segment
/// that is not loaded).
pub open spec fn segment_outcome(ph: ProgramHeader, file_sz: int, mapped: Map<u64, u8>) -> Result<
    (Seq<LoadStep>, Map<u64, u8>, u64),
    LoadError,
> {
    if ph.p_type != PT_LOAD {
        Ok((seq![], mapped, 0))
    } else if ph.p_offset + ph.p_filesz > u64::MAX {
        Err(LoadError::Elf(Error::SizeOverflow))
    } else if ph.p_offset + ph.p_filesz > file_sz {
        Err(LoadError::Elf(Error::InvalidProgramHeader))
    } else {
        match offset_spec(ph.p_vaddr, (ph.p_memsz as i64) as int) {
            None => Err(LoadError::Kernel(crate::error::Error::Todo)),
            Some(end_raw) => if align_up_spec(end_raw as int, 4096) > u64::MAX {
                Err(LoadError::Elf(Error::SizeOverflow))
            } else {
                let end = align_up_spec(end_raw as int, 4096);
                let pages = page_steps(
                    align_down_spec(ph.p_vaddr as int, 4096),
                    end,
                    pte_flags_of(ph.p_flags),
                    mapped,
                );
                match copy_steps(ph.p_vaddr as int, ph.p_offset as int, ph.p_filesz as int, 0) {
                    Ok(copies) => Ok((pages.0 + copies, pages.1, end as u64)),
                    Err(e) => Err(e),
                }
            },
        }
    }
}

/// The steps of program headers `k..` and the final program break, when
/// `mapped` records the pages mapped so far and `max_end` the highest
/// segment end so far.
pub open spec fn plan_from(
    phs: Seq<ProgramHeader>,
    k: int,
    file_sz: int,
    mapped: Map<u64, u8>,
    max_end: u64,
) -> Result<(Seq<LoadStep>, u64), LoadError>
    decreases phs.len() - k,
{
    if k >= phs.len() || k < 0 {
        Ok((seq![], max_end))
    } else {
        match segment_outcome(phs[k], file_sz, mapped) {
            Err(e) => Err(e),
            Ok(seg) => {
                let me = if phs[k].p_type == PT_LOAD && seg.2 > max_end {
                    seg.2
                } else {
                    max_end
                };
                match plan_from(phs, k + 1, file_sz, seg.1, me) {
                    Ok(rest) => Ok((seg.0 + rest.0, rest.1)),
                    Err(e) => Err(e),
                }
            },
        }
    }
}

/// Appends the page steps of the pages `start, start + 4096, ...` below
/// `end` and records them in `mapped`.
fn map_segment_pages(
    steps: &mut Vec<LoadStep>,
    mapped: &mut BTreeMap<u64, u8>,
    start: u64,
    end: u64,
    flags: PteFlags,
)
    requires
        start % 4096 == 0,
        end % 4096 == 0,
    ensures
        final(steps)@ == old(steps)@ + page_steps(start as int, end as int, flags, old(mapped)@).0,
        final(mapped)@ == page_steps(start as int, end as int, flags, old(mapped)@).1,
{
    proof {
        crate::page_meta::lemma_u64_keys_ordered();
    }
    let ghost s0 = steps@;
    let ghost m0 = mapped@;
    let mut va = start;
    if va >= end {
        assert(steps@ =~= s0 + page_steps(start as int, end as int, flags, m0).0);
        return;
    }
    while va < end
        invariant
            va % 4096 == 0,
            end % 4096 == 0,
            start <= va <= end,
            s0 + page_steps(start as int, end as int, flags, m0).0 == steps@ + page_steps(
                va as int,
                end as int,
                flags,
                mapped@,
            ).0,
            page_steps(start as int, end as int, flags, m0).1 == page_steps(
                va as int,
                end as int,
                flags,
                mapped@,
            ).1,
        decreases end - va,
    {
        proof {
            crate::page_meta::lemma_u64_keys_ordered();
        }
        let ghost before = steps@;
        let ghost m = mapped@;
        let ghost rest = page_steps(va + 4096, end as int, flags, if m.contains_key(va) {
            m.insert(va, m[va] | flags)
        } else {
            m.insert(va, flags)
        });
        if mapped.contains_key(&va) {
            let nf = *mapped.get(&va).unwrap() | flags;
            steps.push(LoadStep::Remap { va, flags: nf });
            mapped.insert(va, nf);
        } else {
            steps.push(LoadStep::MapPage { va, flags });
            mapped.insert(va, flags);
        }
        proof {
            let step = if m.contains_key(va) {
                LoadStep::Remap { va, flags: m[va] | flags }
            } else {
                LoadStep::MapPage { va, flags }
            };
            assert(page_steps(va as int, end as int, flags, m).0 == seq![step] + rest.0);
            assert(before + (seq![step] + rest.0) =~= steps@ + rest.0);
        }
        va = va + 4096;
    }
    assert(steps@ + page_steps(va as int, end as int, flags, mapped@).0 =~= steps@);
}

/// Appends the copy steps of a segment's file bytes.
fn copy_segment(steps: &mut Vec<LoadStep>, vaddr: u64, offset: u64, filesz: u64) -> (r: Result<
    (),
    LoadError,
>)
    requires
        offset + filesz <= u64::MAX,
    ensures
        match copy_steps(vaddr as int, offset as int, filesz as int, 0) {
            Ok(c) => r is Ok && final(steps)@ == old(steps)@ + c,
            Err(e) => r is Err && r->Err_0 == e,
        },
{
    let ghost s0 = steps@;
    let mut copied: u64 = 0;
    while copied < filesz
        invariant
            copied <= filesz,
            offset + filesz <= u64::MAX,
            match copy_steps(vaddr as int, offset as int, filesz as int, 0) {
                Ok(c) => match copy_steps(vaddr as int, offset as int, filesz as int, copied as int) {
                    Ok(rest) => s0 + c == steps@ + rest,
                    Err(_) => false,
                },
                Err(e) => copy_steps(vaddr as int, offset as int, filesz as int, copied as int)
                    == Err::<Seq<LoadStep>, LoadError>(e),
            },
        decreases filesz - copied,
    {
        let copy_vaddr = match vaddr.checked_add(copied) {
            Some(v) => v,
            None => return Err(LoadError::Elf(Error::SizeOverflow)),
        };
        let page_offset = copy_vaddr % 4096;
        let copy_len = if 4096 - page_offset < filesz - copied {
            4096 - page_offset
        } else {
            filesz - copied
        };
        let ghost before = steps@;
        steps.push(LoadStep::Copy { file_offset: offset + copied, vaddr: copy_vaddr, len: copy_len });
        proof {
            let step = LoadStep::Copy { file_offset: (offset + copied) as u64, vaddr: copy_vaddr, len: copy_len };
            match copy_steps(vaddr as int, offset as int, filesz as int, copied + copy_len) {
                Ok(rest) => {
                    assert(before + (seq![step] + rest) =~= steps@ + rest);
                },
                Err(_) => {},
            }
        }
        copied = copied + copy_len;
    }
    proof {
        match copy_steps(vaddr as int, offset as int, filesz as int, 0) {
            Ok(c) => {
                assert(steps@ + seq![] =~= steps@);
            },
            Err(_) => {},
        }
    }
    Ok(())
}

/// Plans the loading of `elf`: for each loadable segment in order, checks
/// that its file bytes lie in the file, maps or widens the permissions of
/// every page it covers and copies its file bytes; the program break starts
/// at the highest segment end and execution at the entry point.
pub fn plan_load(elf: &Elf) -> (r: Result<LoadPlan, LoadError>)
    ensures
        match plan_from(
            elf.program_headers@,
            0,
            elf.file.inode.inner.metadata.sz as int,
            Map::empty(),
            0,
        ) {
            Ok(p) => r is Ok && r->Ok_0.steps@ == p.0 && r->Ok_0.brk == p.1 && r->Ok_0.entry
                == elf.header.e_entry,
            Err(e) => r is Err && r->Err_0 == e,
        },
{
    proof {
        crate::page_meta::lemma_u64_keys_ordered();
    }
    let phs = &elf.program_headers;
    let file_sz = elf.file.inode.inner.metadata.sz as u64;
    let ghost total = plan_from(phs@, 0, file_sz as int, Map::empty(), 0);
    let mut mapped: BTreeMap<u64, u8> = BTreeMap::new();
    let mut steps: Vec<LoadStep> = Vec::new();
    let mut max_end: u64 = 0;
    let mut k: usize = 0;
    assert(mapped@ =~= Map::<u64, u8>::empty());
    while k < phs.len()
        invariant
            k <= phs.len(),
            phs@ == elf.program_headers@,
            file_sz == elf.file.inode.inner.metadata.sz,
            total == plan_from(phs@, 0, file_sz as int, Map::empty(), 0),
            total == match plan_from(phs@, k as int, file_sz as int, mapped@, max_end) {
                Ok(rest) => Ok((steps@ + rest.0, rest.1)),
                Err(e) => Err::<(Seq<LoadStep>, u64), LoadError>(e),
            },
        decreases phs.len() - k,
    {
        let ph = phs[k];
        let ghost m = mapped@;
        let ghost acc = steps@;
        if ph.p_type != PT_LOAD {
            k += 1;
            continue;
        }
        assert(phs@[k as int] == ph);
        let file_end = match ph.p_offset.checked_add(ph.p_filesz) {
            Some(e) => e,
            None => {
                assert(segment_outcome(ph, file_sz as int, m) == Err::<(Seq<LoadStep>, Map<u64, u8>, u64), LoadError>(LoadError::Elf(Error::SizeOverflow)));
                assert(plan_from(phs@, k as int, file_sz as int, m, max_end) == Err::<(Seq<LoadStep>, u64), LoadError>(LoadError::Elf(Error::SizeOverflow)));
                return Err(LoadError::Elf(Error::SizeOverflow));
            },
        };
        if file_end > file_sz {
            assert(segment_outcome(ph, file_sz as int, m) == Err::<(Seq<LoadStep>, Map<u64, u8>, u64), LoadError>(LoadError::Elf(Error::InvalidProgramHeader)));
            return Err(LoadError::Elf(Error::InvalidProgramHeader));
        }
        proof {
            crate::mm::lemma_page_pow2();
        }
        let aligned_vaddr = VirtAddr(ph.p_vaddr).align_down(4096);
        let delta = ph.p_memsz as i64;
        let end_raw = match VirtAddr(ph.p_vaddr).offset_by(delta) {
            Some(e) => e,
            None => return Err(LoadError::Kernel(crate::error::Error::Todo)),
        };
        if end_raw.0 % 4096 != 0 && end_raw.0 - end_raw.0 % 4096 > u64::MAX - 4096 {
            return Err(LoadError::Elf(Error::SizeOverflow));
        }
        let aligned_end = end_raw.align_up(4096);
        proof {
            crate::addr::lemma_align_up_facts(end_raw@, 4096);
            crate::addr::lemma_mod_facts(ph.p_vaddr, 4096);
        }
        if aligned_end.0 > max_end {
            max_end = aligned_end.0;
        }
        let flags = convert_elf_flag_to_pte(ph.p_flags);
        map_segment_pages(&mut steps, &mut mapped, aligned_vaddr.0, aligned_end.0, flags);
        match copy_segment(&mut steps, ph.p_vaddr, ph.p_offset, ph.p_filesz) {
            Ok(()) => {},
            Err(e) => return Err(e),
        }
        proof {
            let seg = segment_outcome(ph, file_sz as int, m);
            assert(seg is Ok);
            let rest = plan_from(phs@, k + 1, file_sz as int, seg->Ok_0.1, max_end);
            match rest {
                Ok(rr) => {
                    assert(acc + (seg->Ok_0.0 + rr.0) =~= steps@ + rr.0);
                },
                Err(_) => {},
            }
        }
        k += 1;
    }
    assert(steps@ + seq![] =~= steps@);
    Ok(LoadPlan { steps, brk: max_end, entry: elf.header.e_entry })
}

/// Opens the executable at `path` and plans its loading.
pub fn load_executable<BD: BlockDevice>(fs: &Vsfs<BD>, path: &[u8]) -> (r: Result<LoadPlan, LoadError>)
    ensures
        match load_outcome(fs.disk(), fs.superblock.inode_table_start as int, path@) {
            Err(f) => r is Err && failure_of(r->Err_0) == f,
            Ok((i, h, phs)) => match plan_from(phs, 0, i.inner.metadata.sz as int, Map::empty(), 0) {
                Ok(p) => r is Ok && r->Ok_0.steps@ == p.0 && r->Ok_0.brk == p.1 && r->Ok_0.entry == h.e_entry,
                Err(e) => r is Err && failure_of(r->Err_0) == failure_of(e),
            },
        },
{
    let elf = match Elf::load_from_file(fs, path) {
        Ok(e) => e,
        Err(e) => return Err(e),
    };
    plan_load(&elf)
}

/// The memory work one step of a load plan leaves to the caller.
#[derive(Clone, Copy, Debug, PartialEq, Eq, Structural)]
pub enum PageWork {
    /// Fill the newly mapped frame with zeros.
    Zero { frame: u64 },
    /// Nothing to do.
    Nothing,
    /// Copy `len` file bytes from `file_offset` to physical address `to`.
    Copy { to: u64, file_offset: u64, len: u64 },
}

/// The flag bits that the `Remap` steps among `steps[from..to]` add to the
/// page of `va`.
pub open spec fn remap_bits(steps: Seq<LoadStep>, from: int, to: int, va: u64) -> u64
    decreases to - from,
{
    if to <= from {
        0
    } else {
        remap_bits(steps, from, to - 1, va) | match steps[to - 1] {
            LoadStep::Remap { va: v, flags } => if same_path(v, va, 2, 0) {
                leaf_bits(flags)
            } else {
                0u64
            },
            _ => 0u64,
        }
    }
}

/// What carrying out step `j` of `steps` left, once the steps before `upto`
/// are done, as the page table `pt` now walks: a mapped page is a 4 KiB
/// leaf at the frame to zero whose flag bits are those of its step and of
/// the later steps that gave the page more permissions; a page given new
/// permissions is mapped by a leaf that carries them; a copy goes to where
/// its address translates.
pub open spec fn step_done(steps: Seq<LoadStep>, j: int, upto: int, w: PageWork, pt: PageTable) -> bool {
    match steps[j] {
        LoadStep::MapPage { va, flags } => {
            &&& w matches PageWork::Zero { frame } && pt.translate_spec(va) == Some(frame)
            &&& pt.walk(va, 2) matches Some((e, l)) && l == 0 && pte_flags(e) == (leaf_bits(flags)
                | remap_bits(steps, j + 1, upto, va))
        },
        LoadStep::Remap { va, flags } => {
            &&& w == PageWork::Nothing
            &&& pt.walk(va, 2) matches Some((e, l)) && pte_flags(e) & leaf_bits(flags) == leaf_bits(flags)
        },
        LoadStep::Copy { file_offset, vaddr, len } => pt.translate_spec(vaddr) is Some && w
            == PageWork::Copy { to: pt.translate_spec(vaddr)->0, file_offset, len },
    }
}

proof fn lemma_or_zero(x: u64)
    ensures
        x | 0u64 == x,
{
    assert(x | 0u64 == x) by (bit_vector);
}

/// A step stays done across a later step that maps a fresh page and keeps
/// every walk that found a leaf.
proof fn lemma_done_after_map(
    steps: Seq<LoadStep>,
    j: int,
    i: int,
    w: PageWork,
    pre: PageTable,
    post: PageTable,
)
    requires
        0 <= j < i < steps.len(),
        !(steps[i] is Remap),
        step_done(steps, j, i, w, pre),
        forall|v: u64| #[trigger] pre.walk(v, 2) is Some ==> post.walk(v, 2) == pre.walk(v, 2),
        forall|v: u64| #[trigger] pre.translate_spec(v) is Some ==> post.translate_spec(v)
            == pre.translate_spec(v),
    ensures
        step_done(steps, j, i + 1, w, post),
{
    match steps[j] {
        LoadStep::MapPage { va, flags } => {
            assert(pre.walk(va, 2) is Some);
            assert(pre.translate_spec(va) is Some);
            lemma_or_zero(remap_bits(steps, j + 1, i, va));
            assert(remap_bits(steps, j + 1, i + 1, va) == remap_bits(steps, j + 1, i, va));
        },
        LoadStep::Remap { va, flags } => {
            assert(pre.walk(va, 2) is Some);
        },
        LoadStep::Copy { file_offset, vaddr, len } => {
            assert(pre.translate_spec(vaddr) is Some);
        },
    }
}

/// A step stays done across a later step that gives the page of `rva` the
/// permissions `rflags`.
proof fn lemma_done_after_remap(
    steps: Seq<LoadStep>,
    j: int,
    i: int,
    w: PageWork,
    pre: PageTable,
    post: PageTable,
    rva: u64,
    rflags: PteFlags,
)
    requires
        0 <= j < i < steps.len(),
        steps[i] == (LoadStep::Remap { va: rva, flags: rflags }),
        pre.wf(2),
        pre.walk(rva, 2) is Some,
        remap_result(pre, post, rva, rflags, 2),
        step_done(steps, j, i, w, pre),
    ensures
        step_done(steps, j, i + 1, w, post),
{
    let (ei, l) = pre.walk(rva, 2).unwrap();
    let lb = leaf_bits(rflags);
    pre.lemma_walk_leaf(rva, 2);
    assert(lb <= 0xff) by {
        assert((rflags | 1u8 | 64u8 | 128u8) as u64 <= 0xff) by (bit_vector);
    }
    lemma_flags_or(ei, lb);
    match steps[j] {
        LoadStep::MapPage { va, flags } => {
            let (e, l0) = pre.walk(va, 2).unwrap();
            let before = remap_bits(steps, j + 1, i, va);
            lemma_remap_keeps_translation(pre, post, rva, rflags, va);
            if same_path(va, rva, 2, l) {
                pre.lemma_same_path_same_walk(rva, va, 2, l);
                lemma_same_path_flip(va, rva, 2, l, l);
                assert(same_path(rva, va, 2, 0));
                assert(remap_bits(steps, j + 1, i + 1, va) == before | lb);
                assert(post.walk(va, 2) == Some((ei | lb, l)));
                let bits = leaf_bits(flags);
                assert(pte_flags(ei) == bits | before);
                assert((bits | before) | lb == bits | (before | lb)) by (bit_vector);
            } else {
                if same_path(rva, va, 2, 0) {
                    lemma_same_path_flip(rva, va, 2, 0, l);
                }
                lemma_or_zero(before);
                assert(remap_bits(steps, j + 1, i + 1, va) == before);
                assert(post.walk(va, 2) == pre.walk(va, 2));
            }
        },
        LoadStep::Remap { va, flags } => {
            let (e, l0) = pre.walk(va, 2).unwrap();
            let b = leaf_bits(flags);
            if same_path(va, rva, 2, l) {
                pre.lemma_same_path_same_walk(rva, va, 2, l);
                assert(post.walk(va, 2) == Some((ei | lb, l)));
                let x = pte_flags(ei);
                assert(x & b == b ==> (x | lb) & b == b) by (bit_vector);
            } else {
                assert(post.walk(va, 2) == pre.walk(va, 2));
            }
        },
        LoadStep::Copy { file_offset, vaddr, len } => {
            lemma_remap_keeps_translation(pre, post, rva, rflags, vaddr);
        },
    }
}

/// A load plan stopped at step `step` with `error`.
#[derive(Clone, Copy, Debug, PartialEq, Eq, Structural)]
pub struct PlanFailure {
    pub step: usize,
    pub error: KernelError,
}

/// Step `step` left its page mapped in `pt`: a mapped or remapped page, or
/// the address a copy goes to, translates.
pub open spec fn step_effect(step: LoadStep, pt: PageTable) -> bool {
    match step {
        LoadStep::MapPage { va, flags } => pt.translate_spec(va) is Some,
        LoadStep::Remap { va, flags } => pt.translate_spec(va) is Some,
        LoadStep::Copy { file_offset, vaddr, len } => pt.translate_spec(vaddr) is Some,
    }
}

/// Why `step` fails with `e` on the manager `mm` with a pool of `frames`
/// frames, the state the steps before it left: a page that cannot take a
/// fresh frame, a pool without the frames it needs, a page at the very end
/// of the address space, or an unmapped page to remap or copy to.
pub open spec fn step_failure(step: LoadStep, mm: MemoryManager, frames: nat, e: KernelError) -> bool {
    match step {
        LoadStep::MapPage { va, flags } => mm.fresh_page_failure(frames, va, flags, e),
        LoadStep::Remap { va, flags } => mm.root_pt.translate_spec(va) is None && e == KernelError::Unmapped,
        LoadStep::Copy { file_offset, vaddr, len } => mm.root_pt.translate_spec(vaddr) is None && e
            == KernelError::Unmapped,
    }
}

/// A step that maps a page keeps every translation that existed.
proof fn lemma_step_effect_kept(step: LoadStep, pre: PageTable, post: PageTable)
    requires
        step_effect(step, pre),
        forall|va: u64| #[trigger] pre.translate_spec(va) is Some ==> post.translate_spec(va)
            == pre.translate_spec(va),
    ensures
        step_effect(step, post),
{
    match step {
        LoadStep::MapPage { va, flags } => {
            assert(pre.translate_spec(va) is Some);
        },
        LoadStep::Remap { va, flags } => {
            assert(pre.translate_spec(va) is Some);
        },
        LoadStep::Copy { file_offset, vaddr, len } => {
            assert(pre.translate_spec(vaddr) is Some);
        },
    }
}

/// Carries out the mapping steps of `plan` in `mm`, taking frames from
/// `pool` and counting them in `meta`, and sets the initial program break.
/// Answers, step by step, the memory work left: the frames to zero and the
/// file bytes to copy, each to where its address now translates. Every
/// mapped page ends as a 4 KiB leaf with the permissions of its segment and
/// of every later segment on it (see [`step_done`]), and every page mapped
/// before keeps its frame. The first step that cannot be carried out (see
/// [`step_failure`]) stops it: the answer names the step and the error,
/// and the steps before it are done.
pub fn apply_load_plan(
    plan: &LoadPlan,
    mm: &mut MemoryManager,
    pool: &mut FramePool,
    meta: &mut PageMetadataTable,
) -> (r: Result<Vec<PageWork>, PlanFailure>)
    requires
        old(mm).wf(),
        old(pool).wf(),
        old(meta).wf(),
    ensures
        final(mm).wf(),
        final(pool).wf(),
        final(meta).wf(),
        final(mm).kernel_stack == old(mm).kernel_stack,
        forall|v: u64| #[trigger] old(mm).root_pt.translate_spec(v) is Some
            ==> final(mm).root_pt.translate_spec(v) == old(mm).root_pt.translate_spec(v),
        match r {
            Ok(work) => {
                &&& work@.len() == plan.steps@.len()
                &&& forall|i: int|
                    0 <= i < plan.steps@.len() ==> #[trigger] step_done(
                        plan.steps@,
                        i,
                        plan.steps@.len() as int,
                        work@[i],
                        final(mm).root_pt,
                    )
                &&& final(mm).start_brk@ == plan.brk
                &&& final(mm).brk@ == plan.brk
            },
            Err(f) => {
                &&& f.step < plan.steps@.len()
                &&& forall|j: int| 0 <= j < f.step ==> #[trigger] step_effect(plan.steps@[j], final(mm).root_pt)
                &&& step_failure(plan.steps@[f.step as int], *final(mm), final(pool).frames@.len(), f.error)
                &&& final(mm).start_brk == old(mm).start_brk
                &&& final(mm).brk == old(mm).brk
            },
        },
{
    let ghost steps = plan.steps@;
    let mut work: Vec<PageWork> = Vec::new();
    let mut i: usize = 0;
    while i < plan.steps.len()
        invariant
            steps == plan.steps@,
            i <= steps.len(),
            mm.wf(),
            pool.wf(),
            meta.wf(),
            mm.kernel_stack == old(mm).kernel_stack,
            mm.start_brk == old(mm).start_brk,
            mm.brk == old(mm).brk,
            work@.len() == i,
            forall|j: int| 0 <= j < i ==> #[trigger] step_done(steps, j, i as int, work@[j], mm.root_pt),
            forall|v: u64| #[trigger] old(mm).root_pt.translate_spec(v) is Some
                ==> mm.root_pt.translate_spec(v) == old(mm).root_pt.translate_spec(v),
        decreases steps.len() - i,
    {
        let ghost pre = mm.root_pt;
        let ghost w0 = work@;
        proof {
            assert forall|j: int| 0 <= j < i implies #[trigger] step_effect(steps[j], pre) by {
                assert(step_done(steps, j, i as int, w0[j], pre));
                match steps[j] {
                    LoadStep::Remap { va, flags } => {
                        assert(pre.walk(va, 2) is Some);
                    },
                    _ => {},
                }
            }
        }
        match plan.steps[i] {
            LoadStep::MapPage { va, flags } => {
                let pa = match mm.map_fresh_page(VirtAddr::new(va), flags, pool, meta) {
                    Ok(p) => p,
                    Err(e) => {
                        proof {
                            assert forall|j: int| 0 <= j < i implies #[trigger] step_effect(steps[j], mm.root_pt) by {
                                lemma_step_effect_kept(steps[j], pre, mm.root_pt);
                            }
                        }
                        return Err(PlanFailure { step: i, error: e });
                    },
                };
                work.push(PageWork::Zero { frame: pa.0 });
                proof {
                    assert(leaf_bits(flags) <= 0xff) by {
                        assert((flags | 1u8 | 64u8 | 128u8) as u64 <= 0xff) by (bit_vector);
                    }
                    lemma_fresh_flags(pa@, leaf_bits(flags));
                    lemma_or_zero(leaf_bits(flags));
                    assert(remap_bits(steps, i + 1, i + 1, va) == 0);
                    assert(step_done(steps, i as int, i + 1, work@[i as int], mm.root_pt));
                    assert forall|j: int| 0 <= j < i implies #[trigger] step_done(steps, j, i + 1, work@[j], mm.root_pt) by {
                        assert(work@[j] == w0[j]);
                        lemma_done_after_map(steps, j, i as int, w0[j], pre, mm.root_pt);
                    }
                }
            },
            LoadStep::Remap { va, flags } => {
                let page = VirtAddr::new(va);
                if mm.translate(page).is_none() {
                    return Err(PlanFailure { step: i, error: KernelError::Unmapped });
                }
                mm.remap_page(page, flags);
                work.push(PageWork::Nothing);
                proof {
                    assert forall|v: u64| #[trigger] pre.translate_spec(v) is Some implies mm.root_pt.translate_spec(v)
                        == pre.translate_spec(v) by {
                        lemma_remap_keeps_translation(pre, mm.root_pt, va, flags, v);
                    }
                    let (ei, l) = pre.walk(va, 2).unwrap();
                    let lb = leaf_bits(flags);
                    assert(lb <= 0xff) by {
                        assert((flags | 1u8 | 64u8 | 128u8) as u64 <= 0xff) by (bit_vector);
                    }
                    lemma_flags_or(ei, lb);
                    lemma_same_path_refl(va, 2, l);
                    assert(mm.root_pt.walk(va, 2) == Some((ei | lb, l)));
                    let x = pte_flags(ei);
                    assert((x | lb) & lb == lb) by (bit_vector);
                    assert(step_done(steps, i as int, i + 1, work@[i as int], mm.root_pt));
                    assert forall|j: int| 0 <= j < i implies #[trigger] step_done(steps, j, i + 1, work@[j], mm.root_pt) by {
                        assert(work@[j] == w0[j]);
                        lemma_done_after_remap(steps, j, i as int, w0[j], pre, mm.root_pt, va, flags);
                    }
                }
            },
            LoadStep::Copy { file_offset, vaddr, len } => {
                let to = match mm.translate(VirtAddr::new(vaddr)) {
                    Some(p) => p,
                    None => return Err(PlanFailure { step: i, error: KernelError::Unmapped }),
                };
                work.push(PageWork::Copy { to: to.0, file_offset, len });
                proof {
                    assert forall|j: int| 0 <= j < i implies #[trigger] step_done(steps, j, i + 1, work@[j], mm.root_pt) by {
                        assert(work@[j] == w0[j]);
                        lemma_done_after_map(steps, j, i as int, w0[j], pre, mm.root_pt);
                    }
                }
            },
        }
        i += 1;
    }
    mm.set_initial_brk(VirtAddr::new(plan.brk));
    Ok(work)
}

} // verus!
