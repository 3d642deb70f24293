//! VSFS, the Very Simple File System: a superblock, an inode bitmap, a data
//! bitmap, an inode table of fixed-size records and data blocks. Directories
//! are files of fixed-size directory entries.
//!
//! The disk is seen through [`BlockDevice`], whose model is the whole device
//! as one byte sequence. All multi-byte fields are stored little-endian.
use vstd::prelude::*;

verus! {

/// Bytes per device sector.
pub const SECTOR_SIZE: usize = 512;
/// Bytes per filesystem block.
pub const BLOCK_SIZE: usize = 4096;
/// Sectors per filesystem block.
pub const SECTORS_PER_BLOCK: u64 = 8;
/// Number of direct block pointers in an inode.
pub const DIRECT_BLOCKS: usize = 12;
/// Number of block pointers held by the single indirect block.
pub const INDIRECT_BLOCK_ENTRIES: usize = 1024;
/// Bytes of one on-disk inode record.
pub const INODE_SIZE: usize = 64;
/// Bytes of one on-disk directory entry.
pub const DIRENT_SIZE: usize = 32;
/// Bytes of inline name storage in a directory entry.
pub const NAME_CAPACITY: usize = 27;
/// Superblock magic number, "VSFS".
pub const MAGIC: u32 = 0x5653_4653;

/// Errors of the filesystem layer.
#[derive(Clone, Copy, PartialEq, Eq, Structural, Debug)]
pub enum VfsError {
    /// No directory entry of that name.
    NotFound,
    /// Malformed or unsupported on-disk metadata, or a refused request.
    Fs,
    /// The device refused the sector.
    DeviceIO,
}

/// Sector `s` lies wholly inside a device of contents `d`.
pub open spec fn sector_in_range(d: Seq<u8>, s: int) -> bool {
    0 <= s && (s + 1) * 512 <= d.len()
}

/// The bytes of sector `s`.
pub open spec fn sector_bytes(d: Seq<u8>, s: int) -> Seq<u8> {
    d.subrange(s * 512, s * 512 + 512)
}

/// `d` with the bytes from `at` on replaced by `data`.
pub open spec fn overwrite(d: Seq<u8>, at: int, data: Seq<u8>) -> Seq<u8> {
    d.subrange(0, at) + data + d.subrange(at + data.len(), d.len() as int)
}

/// A sector-addressed storage device.
pub trait BlockDevice {
    /// The whole device as a byte sequence.
    spec fn contents(&self) -> Seq<u8>;

    /// Reads sector `sector` into `buf`; fails exactly when the sector is
    /// not on the device.
    fn read_sector(&self, sector: u64, buf: &mut Vec<u8>) -> (r: Result<(), VfsError>)
        requires
            old(buf).len() == SECTOR_SIZE,
        ensures
            (r is Ok) == sector_in_range(self.contents(), sector as int),
            r is Ok ==> final(buf)@ == sector_bytes(self.contents(), sector as int),
            r is Err ==> r == Err::<(), VfsError>(VfsError::DeviceIO) && final(buf)@ == old(buf)@,
    ;

    /// Writes `buf` to sector `sector`; fails exactly when the sector is not
    /// on the device, and then changes nothing.
    fn write_sector(&mut self, sector: u64, buf: &Vec<u8>) -> (r: Result<(), VfsError>)
        requires
            buf.len() == SECTOR_SIZE,
        ensures
            (r is Ok) == sector_in_range(old(self).contents(), sector as int),
            r is Ok ==> final(self).contents() == overwrite(
                old(self).contents(),
                sector * 512,
                buf@,
            ),
            r is Err ==> r == Err::<(), VfsError>(VfsError::DeviceIO) && final(self).contents()
                == old(self).contents(),
    ;
}

/// A device held in memory.
pub struct MemoryDisk {
    pub bytes: Vec<u8>,
}

impl MemoryDisk {
    /// A device with the given contents.
    pub fn new(bytes: Vec<u8>) -> (d: MemoryDisk)
        ensures
            d.bytes@ == bytes@,
    {
        MemoryDisk { bytes }
    }

    /// Byte offset of `sector`, when the whole sector is on the device.
    fn sector_start(&self, sector: u64) -> (r: Option<usize>)
        ensures
            r is Some <==> sector_in_range(self.bytes@, sector as int),
            r is Some ==> r->0 == sector * 512,
    {
        let len = self.bytes.len() as u64;
        let start = match sector.checked_mul(512) {
            Some(s) => s,
            None => return None,
        };
        if start > len || len - start < 512 {
            return None;
        }
        Some(start as usize)
    }
}

impl BlockDevice for MemoryDisk {
    open spec fn contents(&self) -> Seq<u8> {
        self.bytes@
    }

    fn read_sector(&self, sector: u64, buf: &mut Vec<u8>) -> (r: Result<(), VfsError>) {
        let start = match self.sector_start(sector) {
            Some(s) => s,
            None => return Err(VfsError::DeviceIO),
        };
        let mut i: usize = 0;
        while i < SECTOR_SIZE
            invariant
                i <= SECTOR_SIZE,
                buf.len() == SECTOR_SIZE,
                start + SECTOR_SIZE <= self.bytes.len(),
                forall|j: int| 0 <= j < i ==> buf@[j] == self.bytes@[start + j],
            decreases SECTOR_SIZE - i,
        {
            buf.set(i, self.bytes[start + i]);
            i += 1;
        }
        assert(buf@ =~= sector_bytes(self.bytes@, sector as int));
        Ok(())
    }

    fn write_sector(&mut self, sector: u64, buf: &Vec<u8>) -> (r: Result<(), VfsError>) {
        let start = match self.sector_start(sector) {
            Some(s) => s,
            None => return Err(VfsError::DeviceIO),
        };
        let ghost old_bytes = self.bytes@;
        let mut i: usize = 0;
        while i < SECTOR_SIZE
            invariant
                i <= SECTOR_SIZE,
                buf.len() == SECTOR_SIZE,
                start + SECTOR_SIZE <= old_bytes.len(),
                self.bytes.len() == old_bytes.len(),
                forall|j: int| 0 <= j < start ==> self.bytes@[j] == old_bytes[j],
                forall|j: int| start + SECTOR_SIZE <= j < old_bytes.len() ==> self.bytes@[j] == old_bytes[j],
                forall|j: int| start + i <= j < start + SECTOR_SIZE ==> self.bytes@[j] == old_bytes[j],
                forall|j: int| 0 <= j < i ==> self.bytes@[start + j] == buf@[j],
            decreases SECTOR_SIZE - i,
        {
            self.bytes.set(start + i, buf[i]);
            i += 1;
        }
        assert(self.bytes@ =~= overwrite(old_bytes, sector * 512, buf@));
        Ok(())
    }
}

/// Little-endian value of the two bytes at `p`.
pub open spec fn le_u16(s: Seq<u8>, p: int) -> int {
    s[p] + 256 * s[p + 1]
}

/// Little-endian value of the four bytes at `p`.
pub open spec fn le_u32(s: Seq<u8>, p: int) -> int {
    s[p] + 256 * s[p + 1] + 65536 * s[p + 2] + 16777216 * s[p + 3]
}

/// `s` and `t` agree outside `[p, p + n)`.
pub open spec fn same_outside(s: Seq<u8>, t: Seq<u8>, p: int, n: int) -> bool {
    &&& s.len() == t.len()
    &&& forall|j: int| 0 <= j < s.len() && (j < p || j >= p + n) ==> #[trigger] s[j] == t[j]
}

proof fn lemma_u16_digits(v: u16)
    ensures
        v == (v % 256) + 256 * (v / 256),
        v / 256 < 256,
{
    assert(v == (v % 256) + 256 * (v / 256) && v / 256 < 256) by (bit_vector);
}

proof fn lemma_u32_digits(v: u32)
    ensures
        v == (v % 256) + 256 * ((v / 256) % 256) + 65536 * ((v / 65536) % 256) + 16777216 * (v
            / 16777216),
        v / 16777216 < 256,
{
    assert(v == (v % 256) + 256 * ((v / 256) % 256) + 65536 * ((v / 65536) % 256) + 16777216 * (v
        / 16777216) && v / 16777216 < 256) by (bit_vector);
}

/// Reads the little-endian `u16` at `p`.
pub fn get_u16_le(b: &Vec<u8>, p: usize) -> (v: u16)
    requires
        p + 2 <= b.len(),
    ensures
        v == le_u16(b@, p as int),
{
    b[p] as u16 + (b[p + 1] as u16) * 256
}

/// Reads the little-endian `u32` at `p`.
pub fn get_u32_le(b: &Vec<u8>, p: usize) -> (v: u32)
    requires
        p + 4 <= b.len(),
    ensures
        v == le_u32(b@, p as int),
{
    b[p] as u32 + (b[p + 1] as u32) * 256 + (b[p + 2] as u32) * 65536 + (b[p + 3] as u32)
        * 16777216
}

/// Stores `v` little-endian at `p`.
pub fn set_u16_le(b: &mut Vec<u8>, p: usize, v: u16)
    requires
        p + 2 <= old(b).len(),
    ensures
        le_u16(final(b)@, p as int) == v,
        same_outside(final(b)@, old(b)@, p as int, 2),
{
    proof {
        lemma_u16_digits(v);
    }
    b.set(p, (v % 256) as u8);
    b.set(p + 1, (v / 256) as u8);
}

/// Stores `v` little-endian at `p`.
pub fn set_u32_le(b: &mut Vec<u8>, p: usize, v: u32)
    requires
        p + 4 <= old(b).len(),
    ensures
        le_u32(final(b)@, p as int) == v,
        same_outside(final(b)@, old(b)@, p as int, 4),
{
    proof {
        lemma_u32_digits(v);
    }
    b.set(p, (v % 256) as u8);
    b.set(p + 1, ((v / 256) % 256) as u8);
    b.set(p + 2, ((v / 65536) % 256) as u8);
    b.set(p + 3, (v / 16777216) as u8);
}

/// Kind of an inode.
#[derive(Clone, Copy, PartialEq, Eq, Structural, Debug)]
pub enum Type {
    /// Directory made of [`DirEnt`] records.
    Directory,
    /// Regular file.
    File,
}

/// On-disk code of a [`Type`].
pub open spec fn type_code(t: Type) -> int {
    match t {
        Type::Directory => 1,
        Type::File => 2,
    }
}

impl Type {
    /// The on-disk code: 1 for a directory, 2 for a file.
    pub fn code(self) -> (c: u16)
        ensures
            c == type_code(self),
    {
        match self {
            Type::Directory => 1,
            Type::File => 2,
        }
    }

    /// The kind stored under `code`, if any.
    pub fn from_code(code: u16) -> (t: Option<Type>)
        ensures
            t is Some <==> (code == 1 || code == 2),
            t is Some ==> type_code(t->0) == code,
    {
        if code == 1 {
            Some(Type::Directory)
        } else if code == 2 {
            Some(Type::File)
        } else {
            None
        }
    }
}

/// Basic inode metadata.
#[derive(Clone, Copy, Debug)]
pub struct Metadata {
    /// Device holding the file.
    pub dev: u32,
    /// File size in bytes.
    pub sz: u32,
}

/// On-disk inode record: 64 bytes, in field order.
#[derive(Clone, Copy, Debug)]
pub struct INodeInner {
    /// File kind.
    pub ty: Type,
    /// Directory entries naming this inode.
    pub link_count: u16,
    /// Basic metadata.
    pub metadata: Metadata,
    /// Direct data block numbers; 0 means none.
    pub direct_blocks: [u32; DIRECT_BLOCKS],
    /// Block of further block numbers; 0 means none.
    pub indirect_block: u32,
}

/// Directory entry: 32 bytes, the target inode, the name length and the
/// inline name.
#[derive(Clone, Copy, Debug)]
pub struct DirEnt {
    /// Target inode number.
    pub inum: u32,
    /// Valid bytes of `name`.
    pub name_len: u8,
    /// Inline name storage.
    pub name: [u8; NAME_CAPACITY],
}

/// Superblock, stored at the start of sector 0: eight `u32` fields.
#[derive(Clone, Copy, Debug)]
pub struct SuperBlock {
    pub magic: u32,
    pub nblocks: u32,
    pub ninodes: u32,
    pub inode_bitmap_block: u32,
    pub data_bitmap_block: u32,
    pub inode_table_start: u32,
    pub inode_table_blocks: u32,
    pub data_block_start: u32,
}

/// The inode record stored at byte `p` of `s` is `i`.
pub open spec fn inode_at(s: Seq<u8>, p: int, i: INodeInner) -> bool {
    &&& le_u16(s, p) == type_code(i.ty)
    &&& le_u16(s, p + 2) == i.link_count
    &&& le_u32(s, p + 4) == i.metadata.dev
    &&& le_u32(s, p + 8) == i.metadata.sz
    &&& forall|k: int| 0 <= k < 12 ==> le_u32(s, p + 12 + 4 * k) == #[trigger] i.direct_blocks@[k]
    &&& le_u32(s, p + 60) == i.indirect_block
}

/// The directory entry stored at byte `p` of `s` is `e`.
pub open spec fn dirent_at(s: Seq<u8>, p: int, e: DirEnt) -> bool {
    &&& le_u32(s, p) == e.inum
    &&& s[p + 4] == e.name_len
    &&& forall|k: int| 0 <= k < 27 ==> s[p + 5 + k] == #[trigger] e.name@[k]
}

/// The superblock stored at the start of `s` is `sb`.
pub open spec fn superblock_at(s: Seq<u8>, sb: SuperBlock) -> bool {
    &&& le_u32(s, 0) == sb.magic
    &&& le_u32(s, 4) == sb.nblocks
    &&& le_u32(s, 8) == sb.ninodes
    &&& le_u32(s, 12) == sb.inode_bitmap_block
    &&& le_u32(s, 16) == sb.data_bitmap_block
    &&& le_u32(s, 20) == sb.inode_table_start
    &&& le_u32(s, 24) == sb.inode_table_blocks
    &&& le_u32(s, 28) == sb.data_block_start
}

/// Two inode records with the same fields.
pub open spec fn same_inode(a: INodeInner, b: INodeInner) -> bool {
    &&& a.ty == b.ty
    &&& a.link_count == b.link_count
    &&& a.metadata == b.metadata
    &&& a.direct_blocks@ == b.direct_blocks@
    &&& a.indirect_block == b.indirect_block
}

/// One byte sequence holds at most one inode record at a place.
pub proof fn lemma_inode_at_unique(s: Seq<u8>, p: int, a: INodeInner, b: INodeInner)
    requires
        inode_at(s, p, a),
        inode_at(s, p, b),
    ensures
        same_inode(a, b),
{
    assert(a.ty == b.ty) by {
        match a.ty {
            Type::Directory => {},
            Type::File => {},
        }
        match b.ty {
            Type::Directory => {},
            Type::File => {},
        }
    }
    assert(a.direct_blocks@ =~= b.direct_blocks@) by {
        assert forall|k: int| 0 <= k < 12 implies a.direct_blocks@[k] == b.direct_blocks@[k] by {
            assert(le_u32(s, p + 12 + 4 * k) == a.direct_blocks@[k]);
            assert(le_u32(s, p + 12 + 4 * k) == b.direct_blocks@[k]);
        }
    }
}

/// Decodes the inode record at `p`; an unknown kind code is malformed.
pub fn decode_inode(b: &Vec<u8>, p: usize) -> (r: Result<INodeInner, VfsError>)
    requires
        p + INODE_SIZE <= b.len(),
    ensures
        r is Ok <==> (le_u16(b@, p as int) == 1 || le_u16(b@, p as int) == 2),
        r is Ok ==> inode_at(b@, p as int, r->Ok_0),
        r is Err ==> r == Err::<INodeInner, VfsError>(VfsError::Fs),
{
    let ty = match Type::from_code(get_u16_le(b, p)) {
        Some(t) => t,
        None => return Err(VfsError::Fs),
    };
    let link_count = get_u16_le(b, p + 2);
    let dev = get_u32_le(b, p + 4);
    let sz = get_u32_le(b, p + 8);
    let mut direct_blocks = [0u32; DIRECT_BLOCKS];
    let mut k: usize = 0;
    while k < DIRECT_BLOCKS
        invariant
            k <= DIRECT_BLOCKS,
            p + INODE_SIZE <= b.len(),
            forall|t: int| 0 <= t < k ==> direct_blocks@[t] == le_u32(b@, p + 12 + 4 * t),
        decreases DIRECT_BLOCKS - k,
    {
        direct_blocks[k] = get_u32_le(b, p + 12 + 4 * k);
        k += 1;
    }
    let indirect_block = get_u32_le(b, p + 60);
    Ok(INodeInner { ty, link_count, metadata: Metadata { dev, sz }, direct_blocks, indirect_block })
}

/// Encodes `i` at `p`, leaving the other bytes alone.
pub fn encode_inode(b: &mut Vec<u8>, p: usize, i: &INodeInner)
    requires
        p + INODE_SIZE <= old(b).len(),
    ensures
        inode_at(final(b)@, p as int, *i),
        same_outside(final(b)@, old(b)@, p as int, 64),
{
    set_u16_le(b, p, i.ty.code());
    set_u16_le(b, p + 2, i.link_count);
    set_u32_le(b, p + 4, i.metadata.dev);
    set_u32_le(b, p + 8, i.metadata.sz);
    let mut k: usize = 0;
    while k < DIRECT_BLOCKS
        invariant
            k <= DIRECT_BLOCKS,
            p + INODE_SIZE <= b.len(),
            same_outside(b@, old(b)@, p as int, 64),
            le_u16(b@, p as int) == type_code(i.ty),
            le_u16(b@, p + 2) == i.link_count,
            le_u32(b@, p + 4) == i.metadata.dev,
            le_u32(b@, p + 8) == i.metadata.sz,
            forall|t: int| 0 <= t < k ==> le_u32(b@, p + 12 + 4 * t) == #[trigger] i.direct_blocks@[t],
        decreases DIRECT_BLOCKS - k,
    {
        let ghost before = b@;
        set_u32_le(b, p + 12 + 4 * k, i.direct_blocks[k]);
        assert forall|t: int| 0 <= t < k + 1 implies le_u32(b@, p + 12 + 4 * t)
            == #[trigger] i.direct_blocks@[t] by {
            if t < k {
                assert(b@[p + 12 + 4 * t] == before[p + 12 + 4 * t]);
                assert(b@[p + 13 + 4 * t] == before[p + 13 + 4 * t]);
                assert(b@[p + 14 + 4 * t] == before[p + 14 + 4 * t]);
                assert(b@[p + 15 + 4 * t] == before[p + 15 + 4 * t]);
            }
        }
        k += 1;
    }
    set_u32_le(b, p + 60, i.indirect_block);
}

/// Decodes the directory entry at `p`.
pub fn decode_dirent(b: &Vec<u8>, p: usize) -> (e: DirEnt)
    requires
        p + DIRENT_SIZE <= b.len(),
    ensures
        dirent_at(b@, p as int, e),
{
    let inum = get_u32_le(b, p);
    let name_len = b[p + 4];
    let mut name = [0u8; NAME_CAPACITY];
    let mut k: usize = 0;
    while k < NAME_CAPACITY
        invariant
            k <= NAME_CAPACITY,
            p + DIRENT_SIZE <= b.len(),
            forall|t: int| 0 <= t < k ==> name@[t] == b@[p + 5 + t],
        decreases NAME_CAPACITY - k,
    {
        name[k] = b[p + 5 + k];
        k += 1;
    }
    DirEnt { inum, name_len, name }
}

/// Encodes `e` at `p`, leaving the other bytes alone.
pub fn encode_dirent(b: &mut Vec<u8>, p: usize, e: &DirEnt)
    requires
        p + DIRENT_SIZE <= old(b).len(),
    ensures
        dirent_at(final(b)@, p as int, *e),
        same_outside(final(b)@, old(b)@, p as int, 32),
{
    set_u32_le(b, p, e.inum);
    b.set(p + 4, e.name_len);
    let mut k: usize = 0;
    while k < NAME_CAPACITY
        invariant
            k <= NAME_CAPACITY,
            p + DIRENT_SIZE <= b.len(),
            same_outside(b@, old(b)@, p as int, 32),
            le_u32(b@, p as int) == e.inum,
            b@[p + 4] == e.name_len,
            forall|t: int| 0 <= t < k ==> b@[p + 5 + t] == #[trigger] e.name@[t],
        decreases NAME_CAPACITY - k,
    {
        b.set(p + 5 + k, e.name[k]);
        k += 1;
    }
}

/// Decodes the superblock at the start of `b`.
pub fn decode_superblock(b: &Vec<u8>) -> (sb: SuperBlock)
    requires
        32 <= b.len(),
    ensures
        superblock_at(b@, sb),
{
    SuperBlock {
        magic: get_u32_le(b, 0),
        nblocks: get_u32_le(b, 4),
        ninodes: get_u32_le(b, 8),
        inode_bitmap_block: get_u32_le(b, 12),
        data_bitmap_block: get_u32_le(b, 16),
        inode_table_start: get_u32_le(b, 20),
        inode_table_blocks: get_u32_le(b, 24),
        data_block_start: get_u32_le(b, 28),
    }
}

/// Where logical block `lb` of inode `i` lives on a device of contents `d`:
/// a direct pointer, or an entry of the indirect block; a zero pointer, a
/// missing indirect block or an index past it is malformed.
pub open spec fn block_of(d: Seq<u8>, i: INodeInner, lb: int) -> Result<u32, VfsError> {
    let raw: Result<u32, VfsError> = if lb < 12 {
        Ok(i.direct_blocks@[lb])
    } else if lb - 12 >= 1024 || i.indirect_block == 0 {
        Err(VfsError::Fs)
    } else if !sector_in_range(d, i.indirect_block * 8 + (lb - 12) * 4 / 512) {
        Err(VfsError::DeviceIO)
    } else {
        Ok(le_u32(d, i.indirect_block * 4096 + (lb - 12) * 4) as u32)
    };
    match raw {
        Ok(b) => if b == 0 {
            Err(VfsError::Fs)
        } else {
            Ok(b)
        },
        Err(e) => Err(e),
    }
}

/// `block_of`, or, where only direct blocks are followed, a malformed
/// answer for every block past them.
pub open spec fn file_block(d: Seq<u8>, i: INodeInner, direct_only: bool, lb: int) -> Result<
    u32,
    VfsError,
> {
    if direct_only && lb >= 12 {
        Err(VfsError::Fs)
    } else {
        block_of(d, i, lb)
    }
}

/// Device sector holding file byte `cur` when its block is `b`.
pub open spec fn sector_of(b: int, cur: int) -> int {
    b * 8 + (cur % 4096) / 512
}

/// Bytes of the sector step that starts at file byte `cur` when `remaining`
/// bytes are wanted: up to the end of that sector.
pub open spec fn step_len(cur: int, remaining: int) -> int {
    let so = (cur % 4096) % 512;
    if 512 - so < remaining {
        512 - so
    } else {
        remaining
    }
}

/// The outcome of reading `remaining` bytes of file `i` from byte `cur` on,
/// one sector step at a time, when the bytes `done` were read before: the
/// bytes read, and the error that stopped it, if any. A block that cannot be
/// resolved ends the read early, and is an error only when nothing was read;
/// a sector the device refuses is an error.
pub open spec fn read_from(
    d: Seq<u8>,
    i: INodeInner,
    direct_only: bool,
    cur: int,
    done: Seq<u8>,
    remaining: int,
) -> (Seq<u8>, Option<VfsError>)
    decreases remaining,
{
    if remaining <= 0 {
        (done, None)
    } else {
        match file_block(d, i, direct_only, cur / 4096) {
            Err(e) => (done, if done.len() > 0 {
                None
            } else {
                Some(e)
            }),
            Ok(b) => {
                let sector = sector_of(b as int, cur);
                let at = sector * 512 + (cur % 4096) % 512;
                let c = step_len(cur, remaining);
                if !sector_in_range(d, sector) {
                    (done, Some(VfsError::DeviceIO))
                } else {
                    read_from(
                        d,
                        i,
                        direct_only,
                        cur + c,
                        done + d.subrange(at, at + c),
                        remaining - c,
                    )
                }
            },
        }
    }
}

/// The outcome of writing `data[done..done + remaining]` to file `i` from
/// byte `cur` on, one sector step at a time: the device contents after it,
/// the count written, and the error that stopped it, if any. A block is resolved against the
/// contents as they are when the write first reaches it; `mapped` is the
/// block resolved last, kept while the steps stay inside it.
pub open spec fn write_from(
    d: Seq<u8>,
    i: INodeInner,
    direct_only: bool,
    cur: int,
    data: Seq<u8>,
    done: int,
    remaining: int,
    mapped: Option<(int, u32)>,
) -> (Seq<u8>, int, Option<VfsError>)
    decreases remaining,
{
    if remaining <= 0 {
        (d, done, None)
    } else {
        let lb = cur / 4096;
        let blk = if mapped is Some && (mapped->0).0 == lb {
            Ok((mapped->0).1)
        } else {
            file_block(d, i, direct_only, lb)
        };
        match blk {
            Err(e) => (d, done, if done > 0 {
                None
            } else {
                Some(e)
            }),
            Ok(b) => {
                let sector = sector_of(b as int, cur);
                let at = sector * 512 + (cur % 4096) % 512;
                let c = step_len(cur, remaining);
                if !sector_in_range(d, sector) {
                    (d, done, Some(VfsError::DeviceIO))
                } else {
                    write_from(
                        overwrite(d, at, data.subrange(done, done + c)),
                        i,
                        direct_only,
                        cur + c,
                        data,
                        done + c,
                        remaining - c,
                        Some((lb, b)),
                    )
                }
            },
        }
    }
}

/// Lemma: a read adds at most `remaining` bytes to what was read before.
pub proof fn lemma_read_from_len(
    d: Seq<u8>,
    i: INodeInner,
    direct_only: bool,
    cur: int,
    done: Seq<u8>,
    remaining: int,
)
    requires
        cur >= 0,
    ensures
        done.len() <= read_from(d, i, direct_only, cur, done, remaining).0.len() <= done.len() + (
        if remaining > 0 {
            remaining
        } else {
            0
        }),
    decreases remaining,
{
    if remaining > 0 {
        lemma_step(cur, remaining);
        if let Ok(b) = file_block(d, i, direct_only, cur / 4096) {
            let sector = sector_of(b as int, cur);
            let at = sector * 512 + (cur % 4096) % 512;
            let c = step_len(cur, remaining);
            if sector_in_range(d, sector) {
                lemma_read_from_len(d, i, direct_only, cur + c, done + d.subrange(at, at + c), remaining - c);
            }
        }
    }
}

/// Lemma: a write adds at most `remaining` bytes to the count written before.
pub proof fn lemma_write_from_count(
    d: Seq<u8>,
    i: INodeInner,
    direct_only: bool,
    cur: int,
    data: Seq<u8>,
    done: int,
    remaining: int,
    mapped: Option<(int, u32)>,
)
    requires
        cur >= 0,
        done >= 0,
        done + remaining <= data.len(),
    ensures
        done <= write_from(d, i, direct_only, cur, data, done, remaining, mapped).1 <= done + (
        if remaining > 0 {
            remaining
        } else {
            0
        }),
    decreases remaining,
{
    if remaining > 0 {
        lemma_step(cur, remaining);
        let lb = cur / 4096;
        let blk = if mapped is Some && (mapped->0).0 == lb {
            Ok((mapped->0).1)
        } else {
            file_block(d, i, direct_only, lb)
        };
        if let Ok(b) = blk {
            let sector = sector_of(b as int, cur);
            let at = sector * 512 + (cur % 4096) % 512;
            let c = step_len(cur, remaining);
            if sector_in_range(d, sector) {
                lemma_write_from_count(
                    overwrite(d, at, data.subrange(done, done + c)),
                    i,
                    direct_only,
                    cur + c,
                    data,
                    done + c,
                    remaining - c,
                    Some((lb, b)),
                );
            }
        }
    }
}

/// Bytes that a read or write of `len` bytes at `offset` covers in a file of
/// `sz` bytes.
pub open spec fn span(sz: int, offset: int, len: int) -> int {
    if offset >= sz || len == 0 {
        0
    } else if len < sz - offset {
        len
    } else {
        sz - offset
    }
}

/// A zeroed sector buffer.
pub fn sector_buffer() -> (b: Vec<u8>)
    ensures
        b.len() == SECTOR_SIZE,
{
    vec![0u8; SECTOR_SIZE]
}

/// Resolves logical block `logical_block` of `inode` through its direct or
/// single-indirect pointers.
pub fn data_block<BD: BlockDevice>(dev: &BD, inode: &INodeInner, logical_block: usize) -> (r:
    Result<u32, VfsError>)
    ensures
        r == block_of(dev.contents(), *inode, logical_block as int),
{
    let block = if logical_block < DIRECT_BLOCKS {
        inode.direct_blocks[logical_block]
    } else {
        let indirect_index = logical_block - DIRECT_BLOCKS;
        if indirect_index >= INDIRECT_BLOCK_ENTRIES || inode.indirect_block == 0 {
            return Err(VfsError::Fs);
        }
        let pointer_offset = indirect_index * 4;
        let sector_in_block = pointer_offset / SECTOR_SIZE;
        let sector_offset = pointer_offset % SECTOR_SIZE;
        let sector = inode.indirect_block as u64 * SECTORS_PER_BLOCK + sector_in_block as u64;
        let mut sector_buf = sector_buffer();
        match dev.read_sector(sector, &mut sector_buf) {
            Ok(()) => {},
            Err(e) => return Err(e),
        }
        let v = get_u32_le(&sector_buf, sector_offset);
        assert(sector * 512 + sector_offset == inode.indirect_block * 4096 + indirect_index * 4);
        v
    };
    if block == 0 {
        return Err(VfsError::Fs);
    }
    Ok(block)
}

/// Lemma: a sector step stays inside one block and one sector.
proof fn lemma_step(cur: int, remaining: int)
    requires
        cur >= 0,
        remaining > 0,
    ensures
        1 <= step_len(cur, remaining) <= remaining,
        (cur % 4096) % 512 + step_len(cur, remaining) <= 512,
        (cur % 4096) / 512 < 8,
        (cur % 4096) / 512 * 512 + (cur % 4096) % 512 == cur % 4096,
{
}

/// Resolves `lb` as `file_block` does.
fn lookup_file_block<BD: BlockDevice>(dev: &BD, inode: &INodeInner, direct_only: bool, lb: usize) -> (r:
    Result<u32, VfsError>)
    ensures
        r == file_block(dev.contents(), *inode, direct_only, lb as int),
{
    if direct_only && lb >= DIRECT_BLOCKS {
        Err(VfsError::Fs)
    } else {
        data_block(dev, inode, lb)
    }
}

/// Reads up to `buf.len()` bytes of the file `inode` from byte `offset` on
/// into `buf`, answering the count read and the error that stopped it, if
/// any; with `direct_only`, blocks past the direct pointers count as
/// missing.
pub fn read_chunks<BD: BlockDevice>(
    dev: &BD,
    inode: &INodeInner,
    direct_only: bool,
    offset: usize,
    buf: &mut Vec<u8>,
) -> (r: (usize, Option<VfsError>))
    ensures
        final(buf).len() == old(buf).len(),
        inode.ty != Type::File ==> r == (0usize, Some(VfsError::Fs)) && final(buf)@ == old(buf)@,
        inode.ty == Type::File ==> ({
            let n = span(inode.metadata.sz as int, offset as int, old(buf).len() as int);
            let out = read_from(dev.contents(), *inode, direct_only, offset as int, seq![], n);
            &&& r.0 == out.0.len()
            &&& r.1 == out.1
            &&& final(buf)@ == out.0 + old(buf)@.subrange(out.0.len() as int, old(buf)@.len() as int)
        }),
{
    if inode.ty != Type::File {
        return (0, Some(VfsError::Fs));
    }
    let file_size = inode.metadata.sz as usize;
    if offset >= file_size || buf.len() == 0 {
        assert(buf@ =~= seq![] + buf@.subrange(0, buf@.len() as int));
        return (0, None);
    }
    let ghost d = dev.contents();
    let ghost n = span(inode.metadata.sz as int, offset as int, buf.len() as int);
    let ghost old_buf = buf@;
    let mut remaining: usize = if buf.len() < file_size - offset {
        buf.len()
    } else {
        file_size - offset
    };
    let mut cur: usize = offset;
    let mut total: usize = 0;
    let ghost mut done: Seq<u8> = seq![];
    let mut sector_buf = sector_buffer();
    let mut mapped_block: Option<(usize, u32)> = None;
    while remaining > 0
        invariant
            d == dev.contents(),
            remaining as int == n - total,
            offset + n <= file_size,
            n == span(inode.metadata.sz as int, offset as int, old_buf.len() as int),
            old_buf == old(buf)@,
            inode.ty == Type::File,
            total == done.len(),
            cur == offset + total,
            cur <= file_size,
            total + remaining <= old_buf.len(),
            buf.len() == old_buf.len(),
            sector_buf.len() == SECTOR_SIZE,
            buf@ == done + old_buf.subrange(total as int, old_buf.len() as int),
            read_from(d, *inode, direct_only, cur as int, done, remaining as int) == read_from(
                d,
                *inode,
                direct_only,
                offset as int,
                seq![],
                n,
            ),
            mapped_block is Some ==> file_block(d, *inode, direct_only, (mapped_block->0).0 as int)
                == Ok::<u32, VfsError>((mapped_block->0).1),
        decreases remaining,
    {
        let logical_block = cur / BLOCK_SIZE;
        let block = match mapped_block {
            Some((mapped_lb, b)) if mapped_lb == logical_block => b,
            _ => match lookup_file_block(dev, inode, direct_only, logical_block) {
                Ok(b) => {
                    mapped_block = Some((logical_block, b));
                    b
                },
                Err(err) => {
                    assert(read_from(d, *inode, direct_only, cur as int, done, remaining as int)
                        == (done, if total > 0 { None } else { Some(err) }));
                    if total > 0 {
                        return (total, None);
                    } else {
                        return (total, Some(err));
                    }
                },
            },
        };
        proof {
            lemma_step(cur as int, remaining as int);
        }
        let block_offset = cur % BLOCK_SIZE;
        let sector_in_block = block_offset / SECTOR_SIZE;
        let sector_offset = block_offset % SECTOR_SIZE;
        let sector = block as u64 * SECTORS_PER_BLOCK + sector_in_block as u64;
        assert(file_block(d, *inode, direct_only, cur as int / 4096) == Ok::<u32, VfsError>(block));
        assert(sector == sector_of(block as int, cur as int));
        match dev.read_sector(sector, &mut sector_buf) {
            Ok(()) => {},
            Err(e) => {
                assert(read_from(d, *inode, direct_only, cur as int, done, remaining as int)
                    == (done, Some(VfsError::DeviceIO)));
                return (total, Some(e));
            },
        }
        let to_copy = if SECTOR_SIZE - sector_offset < remaining {
            SECTOR_SIZE - sector_offset
        } else {
            remaining
        };
        let ghost chunk = d.subrange(sector * 512 + sector_offset, sector * 512 + sector_offset + to_copy);
        let mut k: usize = 0;
        while k < to_copy
            invariant
                k <= to_copy,
                sector_offset + to_copy <= SECTOR_SIZE,
                total + to_copy <= old_buf.len(),
                buf.len() == old_buf.len(),
                sector_buf.len() == SECTOR_SIZE,
                sector_buf@ == sector_bytes(d, sector as int),
                sector_in_range(d, sector as int),
                chunk == d.subrange(sector * 512 + sector_offset, sector * 512 + sector_offset + to_copy),
                forall|j: int| 0 <= j < total ==> buf@[j] == done[j],
                forall|j: int| 0 <= j < k ==> buf@[total + j] == chunk[j],
                forall|j: int| total + k <= j < old_buf.len() ==> buf@[j] == old_buf[j],
                done.len() == total,
            decreases to_copy - k,
        {
            buf.set(total + k, sector_buf[sector_offset + k]);
            k += 1;
        }
        proof {
            done = done + chunk;
            assert(buf@ =~= done + old_buf.subrange(total + to_copy, old_buf.len() as int));
        }
        cur += to_copy;
        total += to_copy;
        remaining -= to_copy;
    }
    (total, None)
}

/// Reads up to `buf.len()` bytes of the file `inode` from byte `offset` on
/// into `buf`; with `direct_only`, blocks past the direct pointers count as
/// missing.
pub fn read_file<BD: BlockDevice>(
    dev: &BD,
    inode: &INodeInner,
    direct_only: bool,
    offset: usize,
    buf: &mut Vec<u8>,
) -> (r: Result<usize, VfsError>)
    ensures
        final(buf).len() == old(buf).len(),
        inode.ty != Type::File ==> r == Err::<usize, VfsError>(VfsError::Fs) && final(buf)@
            == old(buf)@,
        inode.ty == Type::File ==> ({
            let n = span(inode.metadata.sz as int, offset as int, old(buf).len() as int);
            let out = read_from(dev.contents(), *inode, direct_only, offset as int, seq![], n);
            &&& final(buf)@ == out.0 + old(buf)@.subrange(out.0.len() as int, old(buf)@.len() as int)
            &&& match out.1 {
                None => r == Ok::<usize, VfsError>(out.0.len() as usize),
                Some(e) => r == Err::<usize, VfsError>(e),
            }
        }),
{
    let (n, err) = read_chunks(dev, inode, direct_only, offset, buf);
    match err {
        None => Ok(n),
        Some(e) => Err(e),
    }
}

/// Lemma: writing back a sector buffer in which `chunk` was patched over
/// the sector's old bytes changes only the bytes of `chunk`.
proof fn lemma_sector_patch(
    d: Seq<u8>,
    s0: int,
    so: int,
    c: int,
    before: Seq<u8>,
    sb: Seq<u8>,
    chunk: Seq<u8>,
)
    requires
        0 <= s0,
        s0 + 512 <= d.len(),
        0 <= so,
        1 <= c,
        so + c <= 512,
        before.len() == 512,
        sb.len() == 512,
        chunk.len() == c,
        c != 512 ==> before == d.subrange(s0, s0 + 512),
        forall|j: int| 0 <= j < so ==> sb[j] == before[j],
        forall|j: int| so + c <= j < 512 ==> sb[j] == before[j],
        forall|j: int| 0 <= j < c ==> sb[so + j] == chunk[j],
    ensures
        overwrite(d, s0, sb) == overwrite(d, s0 + so, chunk),
{
    let after = overwrite(d, s0, sb);
    let expected = overwrite(d, s0 + so, chunk);
    assert forall|j: int| 0 <= j < d.len() implies after[j] == expected[j] by {
        if s0 <= j < s0 + 512 {
            assert(after[j] == sb[j - s0]);
            if j < s0 + so {
                assert(sb[j - s0] == before[j - s0]);
            } else if j < s0 + so + c {
                assert(sb[so + (j - s0 - so)] == chunk[j - s0 - so]);
            } else {
                assert(sb[j - s0] == before[j - s0]);
            }
        }
    }
    assert(after =~= expected);
}

/// Writes `buf` into the file `inode` from byte `offset` on, within the
/// file's current size; with `direct_only`, blocks past the direct pointers
/// count as missing. Nothing is allocated and the size does not change.
/// Answers the count written and the error that stopped it, if any.
pub fn write_chunks<BD: BlockDevice>(
    dev: &mut BD,
    inode: &INodeInner,
    direct_only: bool,
    offset: usize,
    buf: &[u8],
) -> (r: (usize, Option<VfsError>))
    ensures
        inode.ty != Type::File ==> r == (0usize, Some(VfsError::Fs)) && final(dev).contents()
            == old(dev).contents(),
        inode.ty == Type::File ==> ({
            let n = span(inode.metadata.sz as int, offset as int, buf@.len() as int);
            let out = write_from(
                old(dev).contents(),
                *inode,
                direct_only,
                offset as int,
                buf@,
                0,
                n,
                None,
            );
            &&& final(dev).contents() == out.0
            &&& r.0 == out.1
            &&& r.1 == out.2
        }),
{
    if inode.ty != Type::File {
        return (0, Some(VfsError::Fs));
    }
    let file_size = inode.metadata.sz as usize;
    if offset >= file_size || buf.len() == 0 {
        return (0, None);
    }
    let ghost d0 = dev.contents();
    let ghost n = span(inode.metadata.sz as int, offset as int, buf@.len() as int);
    let mut remaining: usize = if buf.len() < file_size - offset {
        buf.len()
    } else {
        file_size - offset
    };
    let mut cur: usize = offset;
    let mut total: usize = 0;
    let mut sector_buf = sector_buffer();
    let mut mapped_block: Option<(usize, u32)> = None;
    while remaining > 0
        invariant
            remaining as int == n - total,
            offset + n <= file_size,
            n == span(inode.metadata.sz as int, offset as int, buf@.len() as int),
            d0 == old(dev).contents(),
            inode.ty == Type::File,
            cur == offset + total,
            cur <= file_size,
            total + remaining <= buf.len(),
            sector_buf.len() == SECTOR_SIZE,
            write_from(
                dev.contents(),
                *inode,
                direct_only,
                cur as int,
                buf@,
                total as int,
                remaining as int,
                match mapped_block {
                    Some((m, b)) => Some((m as int, b)),
                    None => None,
                },
            ) == write_from(d0, *inode, direct_only, offset as int, buf@, 0, n, None),
        decreases remaining,
    {
        let ghost d = dev.contents();
        let ghost mapped_spec: Option<(int, u32)> = match mapped_block {
            Some((m, b)) => Some((m as int, b)),
            None => None,
        };
        let logical_block = cur / BLOCK_SIZE;
        let block = match mapped_block {
            Some((mapped_lb, b)) if mapped_lb == logical_block => b,
            _ => match lookup_file_block(dev, inode, direct_only, logical_block) {
                Ok(b) => {
                    mapped_block = Some((logical_block, b));
                    b
                },
                Err(err) => {
                    assert(write_from(d, *inode, direct_only, cur as int, buf@, total as int,
                        remaining as int, mapped_spec) == (d, total as int, if total > 0 { None } else { Some(err) }));
                    if total > 0 {
                        return (total, None);
                    } else {
                        return (total, Some(err));
                    }
                },
            },
        };
        proof {
            lemma_step(cur as int, remaining as int);
        }
        let block_offset = cur % BLOCK_SIZE;
        let sector_in_block = block_offset / SECTOR_SIZE;
        let sector_offset = block_offset % SECTOR_SIZE;
        let sector = block as u64 * SECTORS_PER_BLOCK + sector_in_block as u64;
        assert(sector == sector_of(block as int, cur as int));
        let to_copy = if SECTOR_SIZE - sector_offset < remaining {
            SECTOR_SIZE - sector_offset
        } else {
            remaining
        };
        if to_copy != SECTOR_SIZE {
            match dev.read_sector(sector, &mut sector_buf) {
                Ok(()) => {},
                Err(e) => {
                    assert(write_from(d, *inode, direct_only, cur as int, buf@, total as int,
                        remaining as int, mapped_spec) == (d, total as int, Some(VfsError::DeviceIO)));
                    return (total, Some(e));
                },
            }
        }
        let ghost before = sector_buf@;
        let ghost chunk = buf@.subrange(total as int, total + to_copy);
        let mut k: usize = 0;
        while k < to_copy
            invariant
                k <= to_copy,
                sector_offset + to_copy <= SECTOR_SIZE,
                total + to_copy <= buf.len(),
                sector_buf.len() == SECTOR_SIZE,
                before.len() == SECTOR_SIZE,
                chunk == buf@.subrange(total as int, total + to_copy),
                forall|j: int| 0 <= j < sector_offset ==> sector_buf@[j] == before[j],
                forall|j: int| sector_offset + k <= j < SECTOR_SIZE ==> sector_buf@[j] == before[j],
                forall|j: int| 0 <= j < k ==> sector_buf@[sector_offset + j] == chunk[j],
            decreases to_copy - k,
        {
            sector_buf.set(sector_offset + k, buf[total + k]);
            k += 1;
        }
        match dev.write_sector(sector, &sector_buf) {
            Ok(()) => {},
            Err(e) => {
                assert(write_from(d, *inode, direct_only, cur as int, buf@, total as int,
                    remaining as int, mapped_spec) == (d, total as int, Some(VfsError::DeviceIO)));
                return (total, Some(e));
            },
        }
        proof {
            let at = sector * 512 + sector_offset;
            if to_copy != SECTOR_SIZE {
                assert(before == sector_bytes(d, sector as int));
            }
            lemma_sector_patch(d, sector * 512, sector_offset as int, to_copy as int, before,
                sector_buf@, chunk);
        }
        cur += to_copy;
        total += to_copy;
        remaining -= to_copy;
    }
    (total, None)
}

/// Writes `buf` into the file `inode` from byte `offset` on, within the
/// file's current size; with `direct_only`, blocks past the direct pointers
/// count as missing.
pub fn write_file<BD: BlockDevice>(
    dev: &mut BD,
    inode: &INodeInner,
    direct_only: bool,
    offset: usize,
    buf: &[u8],
) -> (r: Result<usize, VfsError>)
    ensures
        inode.ty != Type::File ==> r == Err::<usize, VfsError>(VfsError::Fs)
            && final(dev).contents() == old(dev).contents(),
        inode.ty == Type::File ==> ({
            let n = span(inode.metadata.sz as int, offset as int, buf@.len() as int);
            let out = write_from(
                old(dev).contents(),
                *inode,
                direct_only,
                offset as int,
                buf@,
                0,
                n,
                None,
            );
            &&& final(dev).contents() == out.0
            &&& match out.2 {
                None => r == Ok::<usize, VfsError>(out.1 as usize),
                Some(e) => r == Err::<usize, VfsError>(e),
            }
        }),
{
    let (n, err) = write_chunks(dev, inode, direct_only, offset, buf);
    match err {
        None => Ok(n),
        Some(e) => Err(e),
    }
}

/// Lemma: a record read from the sector window `d[a..a + 512]` at `off` is
/// the record at `a + off` of the whole device.
proof fn lemma_inode_window(d: Seq<u8>, a: int, off: int, x: INodeInner)
    requires
        0 <= a,
        a + 512 <= d.len(),
        0 <= off,
        off + 64 <= 512,
    ensures
        inode_at(d.subrange(a, a + 512), off, x) == inode_at(d, a + off, x),
{
    let w = d.subrange(a, a + 512);
    assert forall|t: int| 0 <= t < 64 implies #[trigger] w[off + t] == d[a + off + t] by {}
    assert(le_u16(w, off) == le_u16(d, a + off)) by {
        assert(w[off + 0] == d[a + off + 0]);
        assert(w[off + 1] == d[a + off + 1]);
    }
    assert(le_u16(w, off + 2) == le_u16(d, a + off + 2)) by {
        assert(w[off + 2] == d[a + off + 2]);
        assert(w[off + 3] == d[a + off + 3]);
    }
    assert forall|q: int| 0 <= q < 16 implies #[trigger] le_u32(w, off + 4 * q) == le_u32(
        d,
        a + off + 4 * q,
    ) by {
        assert(w[off + (4 * q + 0)] == d[a + off + (4 * q + 0)]);
        assert(w[off + (4 * q + 1)] == d[a + off + (4 * q + 1)]);
        assert(w[off + (4 * q + 2)] == d[a + off + (4 * q + 2)]);
        assert(w[off + (4 * q + 3)] == d[a + off + (4 * q + 3)]);
    }
    assert(le_u32(w, off + 4) == le_u32(d, a + off + 4)) by {
        assert(le_u32(w, off + 4 * 1) == le_u32(d, a + off + 4 * 1));
    }
    assert(le_u32(w, off + 8) == le_u32(d, a + off + 8)) by {
        assert(le_u32(w, off + 4 * 2) == le_u32(d, a + off + 4 * 2));
    }
    assert(le_u32(w, off + 60) == le_u32(d, a + off + 60)) by {
        assert(le_u32(w, off + 4 * 15) == le_u32(d, a + off + 4 * 15));
    }
    assert forall|k: int| 0 <= k < 12 implies (le_u32(w, off + 12 + 4 * k) == le_u32(
        d,
        a + off + 12 + 4 * k,
    ) && #[trigger] x.direct_blocks@[k] == x.direct_blocks@[k]) by {
        assert(le_u32(w, off + 4 * (k + 3)) == le_u32(d, a + off + 4 * (k + 3)));
    }
}

/// Lemma: a directory entry read from the sector window `d[a..a + 512]` at
/// `off` is the entry at `a + off` of the whole device.
pub proof fn lemma_dirent_window(d: Seq<u8>, a: int, off: int, e: DirEnt)
    requires
        0 <= a,
        a + 512 <= d.len(),
        0 <= off,
        off + 32 <= 512,
    ensures
        dirent_at(d.subrange(a, a + 512), off, e) == dirent_at(d, a + off, e),
{
    let w = d.subrange(a, a + 512);
    assert forall|t: int| 0 <= t < 32 implies #[trigger] w[off + t] == d[a + off + t] by {}
    assert(le_u32(w, off) == le_u32(d, a + off)) by {
        assert(w[off + 0] == d[a + off + 0]);
        assert(w[off + 1] == d[a + off + 1]);
        assert(w[off + 2] == d[a + off + 2]);
        assert(w[off + 3] == d[a + off + 3]);
    }
    assert(w[off + 4] == d[a + off + 4]);
    assert forall|k: int| 0 <= k < 27 implies (w[off + 5 + k] == d[a + off + 5 + k]
        && #[trigger] e.name@[k] == e.name@[k]) by {
        assert(w[off + (5 + k)] == d[a + off + (5 + k)]);
    }
}

/// The inode record stored at byte `p` of `s`, when its kind code is known.
pub open spec fn inode_from_bytes(s: Seq<u8>, p: int) -> INodeInner {
    INodeInner {
        ty: if le_u16(s, p) == 1 {
            Type::Directory
        } else {
            Type::File
        },
        link_count: le_u16(s, p + 2) as u16,
        metadata: Metadata { dev: le_u32(s, p + 4) as u32, sz: le_u32(s, p + 8) as u32 },
        direct_blocks: [
            le_u32(s, p + 12) as u32,
            le_u32(s, p + 16) as u32,
            le_u32(s, p + 20) as u32,
            le_u32(s, p + 24) as u32,
            le_u32(s, p + 28) as u32,
            le_u32(s, p + 32) as u32,
            le_u32(s, p + 36) as u32,
            le_u32(s, p + 40) as u32,
            le_u32(s, p + 44) as u32,
            le_u32(s, p + 48) as u32,
            le_u32(s, p + 52) as u32,
            le_u32(s, p + 56) as u32,
        ],
        indirect_block: le_u32(s, p + 60) as u32,
    }
}

/// The kind code at byte `p` of `s` is a known one.
pub open spec fn valid_type_code(s: Seq<u8>, p: int) -> bool {
    le_u16(s, p) == 1 || le_u16(s, p) == 2
}

/// Lemma: a decoded record with a known kind is the record the bytes hold.
pub proof fn lemma_inode_at_is_from_bytes(s: Seq<u8>, p: int, x: INodeInner)
    requires
        inode_at(s, p, x),
    ensures
        valid_type_code(s, p),
        x == inode_from_bytes(s, p),
{
    let y = inode_from_bytes(s, p);
    assert(x.ty == y.ty) by {
        match x.ty {
            Type::Directory => {},
            Type::File => {},
        }
    }
    assert forall|k: int| 0 <= k < 12 implies x.direct_blocks@[k] == y.direct_blocks@[k] by {
        assert(le_u32(s, p + 12 + 4 * k) == x.direct_blocks@[k]);
        assert(k == 0 || k == 1 || k == 2 || k == 3 || k == 4 || k == 5 || k == 6 || k == 7
            || k == 8 || k == 9 || k == 10 || k == 11);
    }
    assert(x.direct_blocks =~= y.direct_blocks);
}

/// Reading inode `inum` from a table starting at block `ts`: a device error
/// when its sector is not on the device, a malformed answer for an unknown
/// kind code, else the record.
pub open spec fn inode_read(d: Seq<u8>, ts: int, inum: int) -> Result<INodeInner, VfsError> {
    let pos = inode_pos(ts, inum);
    if !sector_in_range(d, pos / 512) {
        Err(VfsError::DeviceIO)
    } else if !valid_type_code(d, pos) {
        Err(VfsError::Fs)
    } else {
        Ok(inode_from_bytes(d, pos))
    }
}

/// Byte offset of the record of inode `inum` in a table starting at block
/// `table_start`.
pub open spec fn inode_pos(table_start: int, inum: int) -> int {
    table_start * 4096 + inum * 64
}

/// Lemma: a sector patched at `off` and written back changes only the
/// patched bytes of the device.
proof fn lemma_patch_window(d: Seq<u8>, a: int, off: int, n: int, sb: Seq<u8>)
    requires
        0 <= a,
        a + 512 <= d.len(),
        0 <= off,
        off + n <= 512,
        sb.len() == 512,
        same_outside(sb, d.subrange(a, a + 512), off, n),
    ensures
        same_outside(overwrite(d, a, sb), d, a + off, n),
        overwrite(d, a, sb).subrange(a, a + 512) == sb,
{
    let after = overwrite(d, a, sb);
    assert forall|j: int| 0 <= j < d.len() && (j < a + off || j >= a + off + n) implies #[trigger] after[j]
        == d[j] by {
        if a <= j < a + 512 {
            assert(after[j] == sb[j - a]);
            assert(sb[j - a] == d.subrange(a, a + 512)[j - a]);
        }
    }
    assert(after.subrange(a, a + 512) =~= sb);
}

/// Reads the record of inode `inum` from an inode table starting at block
/// `table_start`; an unknown kind code is malformed.
pub fn read_inode_record<BD: BlockDevice>(dev: &BD, table_start: u32, inum: u32) -> (r: Result<
    INodeInner,
    VfsError,
>)
    ensures
        r == inode_read(dev.contents(), table_start as int, inum as int),
{
    let ghost pos = inode_pos(table_start as int, inum as int);
    let sector = table_start as u64 * SECTORS_PER_BLOCK + (inum / 8) as u64;
    let offset = ((inum % 8) * 64) as usize;
    assert(sector * 512 + offset == pos && pos / 512 == sector);
    let mut buf = sector_buffer();
    match dev.read_sector(sector, &mut buf) {
        Ok(()) => {},
        Err(e) => return Err(e),
    }
    let r = decode_inode(&buf, offset);
    proof {
        if r is Ok {
            lemma_inode_window(dev.contents(), sector * 512, offset as int, r->Ok_0);
            lemma_inode_at_is_from_bytes(dev.contents(), pos, r->Ok_0);
        }
        assert(le_u16(buf@, offset as int) == le_u16(dev.contents(), pos)) by {
            assert(buf@[offset as int] == dev.contents()[pos]);
            assert(buf@[offset + 1] == dev.contents()[pos + 1]);
        }
    }
    r
}

impl<BD: BlockDevice> Vsfs<BD> {
    /// The device contents.
    pub open spec fn disk(&self) -> Seq<u8> {
        self.device.contents()
    }

    /// Reads the record of inode `inum` from the inode table; an unknown
    /// kind code is malformed.
    pub fn read_inode_from_block(&self, inum: u32) -> (r: Result<INodeInner, VfsError>)
        ensures
            r == inode_read(self.disk(), self.superblock.inode_table_start as int, inum as int),
    {
        read_inode_record(&self.device, self.superblock.inode_table_start, inum)
    }

    /// Writes the record of inode `inum` into the inode table, leaving the
    /// rest of the device alone.
    pub fn write_inode_to_block(&mut self, inum: u32, inner: &INodeInner) -> (r: Result<
        (),
        VfsError,
    >)
        ensures
            final(self).superblock == old(self).superblock,
            ({
                let pos = inode_pos(old(self).superblock.inode_table_start as int, inum as int);
                &&& (r is Ok) == sector_in_range(old(self).disk(), pos / 512)
                &&& r is Ok ==> inode_at(final(self).disk(), pos, *inner) && same_outside(
                    final(self).disk(),
                    old(self).disk(),
                    pos,
                    64,
                )
                &&& r is Err ==> r == Err::<(), VfsError>(VfsError::DeviceIO) && final(self).disk()
                    == old(self).disk()
            }),
    {
        let ghost pos = inode_pos(self.superblock.inode_table_start as int, inum as int);
        let ghost d = self.disk();
        let sector = self.superblock.inode_table_start as u64 * SECTORS_PER_BLOCK + (inum / 8) as u64;
        let offset = ((inum % 8) * 64) as usize;
        assert(sector * 512 + offset == pos && pos / 512 == sector);
        let mut buf = sector_buffer();
        match self.device.read_sector(sector, &mut buf) {
            Ok(()) => {},
            Err(e) => return Err(e),
        }
        encode_inode(&mut buf, offset, inner);
        let r = self.device.write_sector(sector, &buf);
        proof {
            if r is Ok {
                lemma_patch_window(d, sector * 512, offset as int, 64, buf@);
                lemma_inode_window(self.disk(), sector * 512, offset as int, *inner);
            }
        }
        r
    }

    /// Writes directory entry `dirent` at byte `block_offset` of data block
    /// `block`, leaving the rest of the device alone.
    pub fn write_dirent(&mut self, block: u32, block_offset: usize, dirent: &DirEnt) -> (r: Result<
        (),
        VfsError,
    >)
        ensures
            final(self).superblock == old(self).superblock,
            ({
                let pos = block * 4096 + block_offset;
                let fits = block_offset / 512 < 8 && block_offset % 512 + 32 <= 512;
                &&& !fits ==> r == Err::<(), VfsError>(VfsError::Fs) && final(self).disk() == old(
                    self,
                ).disk()
                &&& fits ==> (r is Ok) == sector_in_range(old(self).disk(), pos / 512)
                &&& r is Ok ==> dirent_at(final(self).disk(), pos, *dirent) && same_outside(
                    final(self).disk(),
                    old(self).disk(),
                    pos,
                    32,
                )
                &&& (fits && r is Err) ==> r == Err::<(), VfsError>(VfsError::DeviceIO)
                    && final(self).disk() == old(self).disk()
            }),
    {
        let ghost d = self.disk();
        let sector_idx = block_offset / SECTOR_SIZE;
        let sector_offset = block_offset % SECTOR_SIZE;
        if sector_idx >= 8 || sector_offset + DIRENT_SIZE > SECTOR_SIZE {
            return Err(VfsError::Fs);
        }
        let sector = block as u64 * SECTORS_PER_BLOCK + sector_idx as u64;
        assert(sector * 512 + sector_offset == block * 4096 + block_offset);
        assert((block * 4096 + block_offset) / 512 == sector);
        let mut buf = sector_buffer();
        match self.device.read_sector(sector, &mut buf) {
            Ok(()) => {},
            Err(e) => return Err(e),
        }
        encode_dirent(&mut buf, sector_offset, dirent);
        let r = self.device.write_sector(sector, &buf);
        proof {
            if r is Ok {
                lemma_patch_window(d, sector * 512, sector_offset as int, 32, buf@);
                lemma_dirent_window(self.disk(), sector * 512, sector_offset as int, *dirent);
            }
        }
        r
    }
}

/// Mask of bit `k` of a byte.
pub open spec fn bit_mask(k: int) -> u8 {
    1u8 << (k as u8)
}

/// Byte of the device holding bit `b` of the bitmap in block `bb`.
pub open spec fn bit_byte(bb: int, b: int) -> int {
    bb * 4096 + b / 8
}

/// Bit `b` of the bitmap in block `bb` is set.
pub open spec fn bit_set(d: Seq<u8>, bb: int, b: int) -> bool {
    d[bit_byte(bb, b)] & bit_mask(b % 8) != 0
}

/// Sectors a bitmap scan up to bit `end` covers: `end / 4096` rounded up.
pub open spec fn bitmap_sectors(end: int) -> int {
    end / 4096 + if end % 4096 != 0 {
        1int
    } else {
        0
    }
}

/// First-fit scan of the bitmap in block `bb` from bit `b` up to `end`: the
/// first clear bit, a malformed answer when every bit is set, or a device
/// error at the first sector of the scan that is not on the device.
pub open spec fn bitmap_scan(d: Seq<u8>, bb: int, b: int, end: int) -> Result<int, VfsError>
    decreases end - b,
{
    if b >= end {
        Err(VfsError::Fs)
    } else if !sector_in_range(d, bb * 8 + b / 4096) {
        Err(VfsError::DeviceIO)
    } else if !bit_set(d, bb, b) {
        Ok(b)
    } else {
        bitmap_scan(d, bb, b + 1, end)
    }
}

/// Outcome of allocating a bit in `[start, end)` of the bitmap in block
/// `bb`; a bitmap of more than one block is malformed.
pub open spec fn alloc_outcome(d: Seq<u8>, bb: int, start: int, end: int) -> Result<int, VfsError> {
    if bitmap_sectors(end) > 8 {
        Err(VfsError::Fs)
    } else if start >= end {
        if start / 4096 < bitmap_sectors(end) && !sector_in_range(d, bb * 8 + start / 4096) {
            Err(VfsError::DeviceIO)
        } else {
            Err(VfsError::Fs)
        }
    } else {
        bitmap_scan(d, bb, start, end)
    }
}

/// `d` with bit `b` of the bitmap in block `bb` set.
pub open spec fn set_bit(d: Seq<u8>, bb: int, b: int) -> Seq<u8> {
    d.update(bit_byte(bb, b), d[bit_byte(bb, b)] | bit_mask(b % 8))
}

/// Bit `b` of the bitmap in block `bb` can be cleared: it lies in the
/// block, on the device, and is set.
pub open spec fn freeable(d: Seq<u8>, bb: int, b: int) -> bool {
    &&& b / 4096 < 8
    &&& sector_in_range(d, bb * 8 + b / 4096)
    &&& bit_set(d, bb, b)
}

/// What clearing bit `b` of the bitmap in block `bb` answers: a bit past
/// the block is malformed, an unreadable sector an I/O error, a bit that is
/// not set a refused request.
pub open spec fn free_result(d: Seq<u8>, bb: int, b: int) -> Result<(), VfsError> {
    if b / 4096 >= 8 {
        Err(VfsError::Fs)
    } else if !sector_in_range(d, bb * 8 + b / 4096) {
        Err(VfsError::DeviceIO)
    } else if !bit_set(d, bb, b) {
        Err(VfsError::Fs)
    } else {
        Ok(())
    }
}

/// The device after clearing bit `b` of the bitmap in block `bb`, if it can
/// be cleared.
pub open spec fn free_outcome(d: Seq<u8>, bb: int, b: int) -> Seq<u8> {
    if freeable(d, bb, b) {
        d.update(bit_byte(bb, b), d[bit_byte(bb, b)] & !bit_mask(b % 8))
    } else {
        d
    }
}

/// Lemma: a first-fit scan answers a bit of the scanned range.
proof fn lemma_scan_bounds(d: Seq<u8>, bb: int, b: int, end: int)
    ensures
        bitmap_scan(d, bb, b, end) is Ok ==> b <= bitmap_scan(d, bb, b, end)->Ok_0 < end,
    decreases end - b,
{
    if b < end && sector_in_range(d, bb * 8 + b / 4096) && bit_set(d, bb, b) {
        lemma_scan_bounds(d, bb, b + 1, end);
    }
}

proof fn lemma_bit_index(so: int, local: int)
    requires
        0 <= so,
        0 <= local < 4096,
    ensures
        (so * 4096 + local) / 8 == so * 512 + local / 8,
        (so * 4096 + local) % 8 == local % 8,
        (so * 4096 + local) / 4096 == so,
{
    assert((so * 4096 + local) / 8 == so * 512 + local / 8) by (nonlinear_arith)
        requires
            0 <= so,
            0 <= local < 4096,
    ;
    assert((so * 4096 + local) % 8 == local % 8) by (nonlinear_arith)
        requires
            0 <= so,
            0 <= local < 4096,
    ;
    assert((so * 4096 + local) / 4096 == so) by (nonlinear_arith)
        requires
            0 <= so,
            0 <= local < 4096,
    ;
}

proof fn lemma_scan_past_end(d: Seq<u8>, bb: int, b: int, end: int)
    requires
        b >= end,
    ensures
        bitmap_scan(d, bb, b, end) == Err::<int, VfsError>(VfsError::Fs),
{
}

impl<BD: BlockDevice> Vsfs<BD> {
    /// Sets the first clear bit in `[start_bit, end_bit)` of the bitmap in
    /// block `bitmap_block` and returns its index.
    pub fn allocate_bitmap_bit(&mut self, bitmap_block: u32, start_bit: usize, end_bit: usize) -> (r:
        Result<usize, VfsError>)
        ensures
            final(self).superblock == old(self).superblock,
            match alloc_outcome(old(self).disk(), bitmap_block as int, start_bit as int, end_bit as int) {
                Ok(b) => r == Ok::<usize, VfsError>(b as usize) && final(self).disk() == old(self).disk().update(
                    bit_byte(bitmap_block as int, b),
                    old(self).disk()[bit_byte(bitmap_block as int, b)] | bit_mask(b % 8),
                ),
                Err(e) => r == Err::<usize, VfsError>(e) && final(self).disk() == old(self).disk(),
            },
    {
        let ghost d = self.disk();
        let ghost bb = bitmap_block as int;
        let bits_per_sector: usize = SECTOR_SIZE * 8;
        let start_sector = start_bit / bits_per_sector;
        let end_sector = end_bit / bits_per_sector + if end_bit % bits_per_sector != 0 {
            1
        } else {
            0
        };
        if end_sector > 8 {
            return Err(VfsError::Fs);
        }
        let mut buf = sector_buffer();
        if start_bit >= end_bit {
            if start_sector < end_sector {
                match self.device.read_sector(
                    bitmap_block as u64 * SECTORS_PER_BLOCK + start_sector as u64,
                    &mut buf,
                ) {
                    Ok(()) => {},
                    Err(e) => return Err(e),
                }
            }
            return Err(VfsError::Fs);
        }
        let mut sector_offset = start_sector;
        while sector_offset < end_sector
            invariant
                start_bit < end_bit,
                start_sector == start_bit / 4096,
                end_sector == bitmap_sectors(end_bit as int),
                end_sector <= 8,
                start_sector <= sector_offset <= end_sector,
                bits_per_sector == 4096,
                buf.len() == SECTOR_SIZE,
                self.disk() == d,
                self.superblock == old(self).superblock,
                d == old(self).disk(),
                bb == bitmap_block as int,
                bitmap_scan(d, bb, start_bit as int, end_bit as int) == bitmap_scan(
                    d,
                    bb,
                    if start_bit > sector_offset * 4096 {
                        start_bit as int
                    } else {
                        sector_offset * 4096
                    },
                    end_bit as int,
                ),
            decreases end_sector - sector_offset,
        {
            let sector = bitmap_block as u64 * SECTORS_PER_BLOCK + sector_offset as u64;
            let sector_start_bit = sector_offset * bits_per_sector;
            let local_start = if start_bit > sector_start_bit {
                start_bit - sector_start_bit
            } else {
                0
            };
            let local_end = if end_bit - sector_start_bit < bits_per_sector {
                end_bit - sector_start_bit
            } else {
                bits_per_sector
            };
            proof {
                lemma_bit_index(sector_offset as int, local_start as int);
            }
            match self.device.read_sector(sector, &mut buf) {
                Ok(()) => {},
                Err(e) => return Err(e),
            }
            let mut local_bit = local_start;
            while local_bit < local_end
                invariant
                    local_start <= local_bit <= local_end,
                    local_end <= 4096,
                    sector_start_bit + local_end <= end_bit,
                    sector_start_bit == sector_offset * 4096,
                    sector_offset < end_sector,
                    end_sector <= 8,
                    end_sector == bitmap_sectors(end_bit as int),
                    sector == bb * 8 + sector_offset,
                    sector_in_range(d, sector as int),
                    buf@ == sector_bytes(d, sector as int),
                    buf.len() == SECTOR_SIZE,
                    self.disk() == d,
                    self.superblock == old(self).superblock,
                    d == old(self).disk(),
                    bb == bitmap_block as int,
                    start_bit < end_bit,
                    bitmap_scan(d, bb, start_bit as int, end_bit as int) == bitmap_scan(
                        d,
                        bb,
                        sector_start_bit + local_bit,
                        end_bit as int,
                    ),
                decreases local_end - local_bit,
            {
                let byte_idx = local_bit / 8;
                let mask: u8 = 1u8 << ((local_bit % 8) as u8);
                proof {
                    lemma_bit_index(sector_offset as int, local_bit as int);
                    assert(buf@[byte_idx as int] == d[bit_byte(bb, sector_start_bit + local_bit)]);
                }
                if buf[byte_idx] & mask == 0 {
                    let v = buf[byte_idx] | mask;
                    buf.set(byte_idx, v);
                    match self.device.write_sector(sector, &buf) {
                        Ok(()) => {},
                        Err(e) => return Err(e),
                    }
                    proof {
                        let b = sector_start_bit + local_bit;
                        let p = bit_byte(bb, b);
                        assert(self.disk() =~= d.update(p, v));
                        assert(b / 4096 == sector_offset);
                        assert(b % 8 == local_bit % 8);
                        assert(bit_mask(b % 8) == mask);
                        assert(!bit_set(d, bb, b));
                        assert(bitmap_scan(d, bb, b, end_bit as int) == Ok::<int, VfsError>(b));
                        assert(alloc_outcome(d, bb, start_bit as int, end_bit as int) == Ok::<int, VfsError>(b));
                    }
                    return Ok(sector_start_bit + local_bit);
                }
                local_bit += 1;
            }
            proof {
                if local_end < 4096 {
                    lemma_scan_past_end(d, bb, sector_start_bit + local_bit, end_bit as int);
                    lemma_scan_past_end(
                        d,
                        bb,
                        if start_bit > (sector_offset + 1) * 4096 {
                            start_bit as int
                        } else {
                            (sector_offset + 1) * 4096
                        },
                        end_bit as int,
                    );
                }
            }
            sector_offset += 1;
        }
        proof {
            lemma_scan_past_end(
                d,
                bb,
                if start_bit > sector_offset * 4096 {
                    start_bit as int
                } else {
                    sector_offset * 4096
                },
                end_bit as int,
            );
        }
        Err(VfsError::Fs)
    }

    /// Clears bit `bit` of the bitmap in block `bitmap_block`; clearing a
    /// clear bit, or a bit past the block, is malformed.
    pub fn free_bitmap_bit(&mut self, bitmap_block: u32, bit: usize) -> (r: Result<(), VfsError>)
        ensures
            final(self).superblock == old(self).superblock,
            r == free_result(old(self).disk(), bitmap_block as int, bit as int),
            ({
                let d = old(self).disk();
                let bb = bitmap_block as int;
                &&& final(self).disk() == free_outcome(d, bb, bit as int)
                &&& if bit / 4096 >= 8 {
                    r == Err::<(), VfsError>(VfsError::Fs) && final(self).disk() == d
                } else if !sector_in_range(d, bb * 8 + bit / 4096) {
                    r == Err::<(), VfsError>(VfsError::DeviceIO) && final(self).disk() == d
                } else if !bit_set(d, bb, bit as int) {
                    r == Err::<(), VfsError>(VfsError::Fs) && final(self).disk() == d
                } else {
                    r is Ok && final(self).disk() == d.update(
                        bit_byte(bb, bit as int),
                        d[bit_byte(bb, bit as int)] & !bit_mask(bit as int % 8),
                    )
                }
            }),
    {
        let ghost d = self.disk();
        let sector_offset = bit / (SECTOR_SIZE * 8);
        if sector_offset >= 8 {
            return Err(VfsError::Fs);
        }
        let byte_idx = bit % (SECTOR_SIZE * 8) / 8;
        let mask: u8 = 1u8 << ((bit % 8) as u8);
        let sector = bitmap_block as u64 * SECTORS_PER_BLOCK + sector_offset as u64;
        let mut buf = sector_buffer();
        match self.device.read_sector(sector, &mut buf) {
            Ok(()) => {},
            Err(e) => return Err(e),
        }
        proof {
            lemma_bit_index(sector_offset as int, (bit % 4096) as int);
            assert(bit == sector_offset * 4096 + bit % 4096);
            assert(buf@[byte_idx as int] == d[bit_byte(bitmap_block as int, bit as int)]);
        }
        if buf[byte_idx] & mask == 0 {
            return Err(VfsError::Fs);
        }
        let v = buf[byte_idx] & !mask;
        buf.set(byte_idx, v);
        let r = self.device.write_sector(sector, &buf);
        proof {
            assert(self.disk() =~= d.update(bit_byte(bitmap_block as int, bit as int), v));
            assert(sector_in_range(d, sector as int));
        }
        match r {
            Ok(_) => Ok(()),
            Err(e) => Err(e),
        }
    }
}

/// A mounted VSFS: its superblock and its device.
pub struct Vsfs<BD: BlockDevice> {
    pub superblock: SuperBlock,
    pub device: BD,
}

/// A VSFS inode: its number and its record.
#[derive(Clone, Copy, Debug)]
pub struct INode {
    pub inum: u32,
    pub inner: INodeInner,
}

/// An open file: its inode and a byte offset.
#[derive(Clone, Copy, Debug)]
pub struct File {
    pub inode: INode,
    pub offset: usize,
}

/// Reading inode `inum` as an [`INode`].
pub open spec fn inode_node(d: Seq<u8>, ts: int, inum: u32) -> Result<INode, VfsError> {
    match inode_read(d, ts, inum as int) {
        Ok(x) => Ok(INode { inum, inner: x }),
        Err(e) => Err(e),
    }
}

/// Scan of the directory entries `idx..count` of directory `dir` for `name`:
/// the inode number of the first entry so named, or the first error met.
pub open spec fn dir_scan(d: Seq<u8>, dir: INodeInner, name: Seq<u8>, idx: int, count: int) -> Result<
    u32,
    VfsError,
>
    decreases count - idx,
{
    if idx >= count {
        Err(VfsError::NotFound)
    } else {
        let off = idx * 32;
        match block_of(d, dir, off / 4096) {
            Err(e) => Err(e),
            Ok(b) => {
                let sector = b * 8 + (off % 4096) / 512;
                let pos = b * 4096 + off % 4096;
                if !sector_in_range(d, sector) {
                    Err(VfsError::DeviceIO)
                } else if d[pos + 4] > 27 {
                    Err(VfsError::Fs)
                } else if d.subrange(pos + 5, pos + 5 + d[pos + 4]) == name {
                    Ok(le_u32(d, pos) as u32)
                } else {
                    dir_scan(d, dir, name, idx + 1, count)
                }
            },
        }
    }
}

/// Looking up `name` in directory `dir`: only a directory whose size is a
/// whole number of entries can be searched.
pub open spec fn dir_lookup(d: Seq<u8>, dir: INodeInner, name: Seq<u8>) -> Result<u32, VfsError> {
    if dir.ty != Type::Directory {
        Err(VfsError::Fs)
    } else if dir.metadata.sz % 32 != 0 {
        Err(VfsError::Fs)
    } else {
        dir_scan(d, dir, name, 0, dir.metadata.sz as int / 32)
    }
}

/// Looking up `name` in directory `dir` and reading the inode it names.
#[verifier::opaque]
pub open spec fn lookup_outcome(d: Seq<u8>, ts: int, dir: INodeInner, name: Seq<u8>) -> Result<
    INode,
    VfsError,
> {
    match dir_lookup(d, dir, name) {
        Ok(inum) => inode_node(d, ts, inum),
        Err(e) => Err(e),
    }
}

/// Non-empty `/`-separated components of `p[i..]`, where `cur` holds the
/// bytes of the component being read.
pub open spec fn comps_from(p: Seq<u8>, i: int, cur: Seq<u8>) -> Seq<Seq<u8>>
    decreases p.len() - i,
{
    if i >= p.len() {
        if cur.len() > 0 {
            seq![cur]
        } else {
            seq![]
        }
    } else if p[i] == 47u8 {
        (if cur.len() > 0 {
            seq![cur]
        } else {
            seq![]
        }) + comps_from(p, i + 1, seq![])
    } else {
        comps_from(p, i + 1, cur.push(p[i]))
    }
}

/// Non-empty `/`-separated components of a path; repeated separators count
/// as one.
pub open spec fn path_components(p: Seq<u8>) -> Seq<Seq<u8>> {
    comps_from(p, 0, seq![])
}

/// Walking `comps[k..]` from `cur`: each step looks the next component up in
/// a directory; a file cannot be walked through.
pub open spec fn resolve(d: Seq<u8>, ts: int, cur: INode, comps: Seq<Seq<u8>>, k: int) -> Result<
    INode,
    VfsError,
>
    decreases comps.len() - k,
{
    if k >= comps.len() {
        Ok(cur)
    } else if cur.inner.ty == Type::File {
        Err(VfsError::Fs)
    } else {
        match lookup_outcome(d, ts, cur.inner, comps[k]) {
            Err(e) => Err(e),
            Ok(next) => resolve(
                d,
                ts,
                if cur.inum != next.inum {
                    next
                } else {
                    cur
                },
                comps,
                k + 1,
            ),
        }
    }
}

/// Walking toward a file to create: the parent directory and the name of
/// the missing last component, or the error. A missing inner component
/// gives its own error; any other answer at the last one, or a path that
/// exists or is empty, is malformed.
pub open spec fn create_walk(d: Seq<u8>, ts: int, cur: INode, comps: Seq<Seq<u8>>, k: int) -> Result<
    (INode, Seq<u8>),
    VfsError,
>
    decreases comps.len() - k,
{
    if k >= comps.len() {
        Err(VfsError::Fs)
    } else if cur.inner.ty == Type::File {
        Err(VfsError::Fs)
    } else {
        match lookup_outcome(d, ts, cur.inner, comps[k]) {
            Ok(next) => create_walk(
                d,
                ts,
                if cur.inum != next.inum {
                    next
                } else {
                    cur
                },
                comps,
                k + 1,
            ),
            Err(e) => if k + 1 < comps.len() {
                Err(e)
            } else if e == VfsError::NotFound {
                Ok((cur, comps[k]))
            } else {
                Err(VfsError::Fs)
            },
        }
    }
}

/// Splits a path into its non-empty `/`-separated components.
pub fn split_path(path: &[u8]) -> (r: Vec<Vec<u8>>)
    ensures
        r.len() == path_components(path@).len(),
        forall|k: int| 0 <= k < r.len() ==> #[trigger] r@[k]@ == path_components(path@)[k],
{
    let mut out: Vec<Vec<u8>> = Vec::new();
    let ghost mut outs: Seq<Seq<u8>> = seq![];
    let mut cur: Vec<u8> = Vec::new();
    let mut i: usize = 0;
    while i < path.len()
        invariant
            i <= path.len(),
            out.len() == outs.len(),
            forall|k: int| 0 <= k < out.len() ==> #[trigger] out@[k]@ == outs[k],
            outs + comps_from(path@, i as int, cur@) == path_components(path@),
        decreases path.len() - i,
    {
        if path[i] == 47u8 {
            if cur.len() > 0 {
                proof {
                    assert(comps_from(path@, i as int, cur@) == seq![cur@] + comps_from(path@, i + 1, seq![]));
                    assert(outs + comps_from(path@, i as int, cur@) =~= outs.push(cur@) + comps_from(path@, i + 1, seq![]));
                    outs = outs.push(cur@);
                }
                out.push(cur);
                cur = Vec::new();
            } else {
                proof {
                    assert(comps_from(path@, i as int, cur@) =~= comps_from(path@, i + 1, seq![]));
                }
                cur = Vec::new();
            }
        } else {
            cur.push(path[i]);
        }
        i += 1;
    }
    if cur.len() > 0 {
        proof {
            assert(outs + comps_from(path@, i as int, cur@) =~= outs.push(cur@));
            outs = outs.push(cur@);
        }
        out.push(cur);
    } else {
        assert(outs + comps_from(path@, i as int, cur@) =~= outs);
    }
    out
}

/// `name[..name_len]` equals `path`.
pub fn names_equal(name: &[u8; NAME_CAPACITY], name_len: usize, path: &[u8]) -> (r: bool)
    requires
        name_len <= NAME_CAPACITY,
    ensures
        r == (name@.subrange(0, name_len as int) == path@),
{
    if path.len() != name_len {
        assert(name@.subrange(0, name_len as int).len() != path@.len());
        return false;
    }
    let mut k: usize = 0;
    while k < name_len
        invariant
            k <= name_len,
            name_len <= NAME_CAPACITY,
            path.len() == name_len,
            forall|t: int| 0 <= t < k ==> name@[t] == path@[t],
        decreases name_len - k,
    {
        if name[k] != path[k] {
            assert(name@.subrange(0, name_len as int)[k as int] != path@[k as int]);
            return false;
        }
        k += 1;
    }
    assert(name@.subrange(0, name_len as int) =~= path@);
    true
}

proof fn lemma_dirent_slot(idx: int)
    requires
        idx >= 0,
    ensures
        (idx * 32) % 4096 % 512 + 32 <= 512,
        (idx * 32) % 4096 / 512 < 8,
{
    assert((idx * 32) % 4096 % 512 + 32 <= 512) by (nonlinear_arith)
        requires
            idx >= 0,
    ;
    assert((idx * 32) % 4096 / 512 < 8) by (nonlinear_arith)
        requires
            idx >= 0,
    ;
}

impl<BD: BlockDevice> Vsfs<BD> {
    /// Reads inode `inum`.
    pub fn read_inode(&self, inum: u32) -> (r: Result<INode, VfsError>)
        ensures
            r == inode_node(self.disk(), self.superblock.inode_table_start as int, inum),
    {
        match self.read_inode_from_block(inum) {
            Ok(inner) => Ok(INode { inum, inner }),
            Err(e) => Err(e),
        }
    }

    /// The root directory, inode 1.
    pub fn root(&self) -> (r: Result<INode, VfsError>)
        ensures
            r == inode_node(self.disk(), self.superblock.inode_table_start as int, 1),
    {
        self.read_inode(1)
    }

    /// Looks `path`, a single component, up in directory `inode` and reads
    /// the inode it names.
    pub fn lookup_path_inner(&self, inode: &INodeInner, path: &[u8]) -> (r: Result<INode, VfsError>)
        ensures
            r == lookup_outcome(
                self.disk(),
                self.superblock.inode_table_start as int,
                *inode,
                path@,
            ),
    {
        proof {
            reveal(lookup_outcome);
        }
        if inode.ty != Type::Directory {
            return Err(VfsError::Fs);
        }
        if inode.metadata.sz as usize % DIRENT_SIZE != 0 {
            return Err(VfsError::Fs);
        }
        let ghost d = self.disk();
        let count = inode.metadata.sz as usize / DIRENT_SIZE;
        let mut buf = sector_buffer();
        let mut dirent_idx: usize = 0;
        while dirent_idx < count
            invariant
                count == inode.metadata.sz / 32,
                dirent_idx <= count,
                buf.len() == SECTOR_SIZE,
                d == self.disk(),
                dir_lookup(d, *inode, path@) == dir_scan(d, *inode, path@, dirent_idx as int, count as int),
            decreases count - dirent_idx,
        {
            proof {
                reveal(lookup_outcome);
            }
            let dirent_offset = dirent_idx * DIRENT_SIZE;
            let block_idx = dirent_offset / BLOCK_SIZE;
            let block_offset = dirent_offset % BLOCK_SIZE;
            let block = match data_block(&self.device, inode, block_idx) {
                Ok(b) => b,
                Err(e) => return Err(e),
            };
            proof {
                lemma_dirent_slot(dirent_idx as int);
            }
            let sector = block as u64 * SECTORS_PER_BLOCK + (block_offset / SECTOR_SIZE) as u64;
            match self.device.read_sector(sector, &mut buf) {
                Ok(()) => {},
                Err(e) => return Err(e),
            }
            let so = block_offset % SECTOR_SIZE;
            let dirent = decode_dirent(&buf, so);
            let ghost pos = block * 4096 + block_offset;
            proof {
                assert(sector * 512 + so == pos);
                lemma_dirent_window(d, sector * 512, so as int, dirent);
            }
            let name_len = dirent.name_len as usize;
            if name_len > NAME_CAPACITY {
                return Err(VfsError::Fs);
            }
            if names_equal(&dirent.name, name_len, path) {
                assert(d.subrange(pos + 5, pos + 5 + d[pos + 4]) =~= dirent.name@.subrange(0, name_len as int));
                return self.read_inode(dirent.inum);
            }
            assert(d.subrange(pos + 5, pos + 5 + d[pos + 4]) =~= dirent.name@.subrange(0, name_len as int));
            dirent_idx += 1;
        }
        proof {
            reveal(lookup_outcome);
        }
        Err(VfsError::NotFound)
    }

    /// Lemma helper: the resolve step taken by `open` and `create`.
    pub fn next_inode(current: INode, next: INode) -> (r: INode)
        ensures
            r == (if current.inum != next.inum {
                next
            } else {
                current
            }),
    {
        if current.inum != next.inum {
            next
        } else {
            current
        }
    }
}

impl INode {
    /// Opens `path`, relative to this inode; empty components are ignored
    /// and a regular file cannot be walked through.
    pub fn open<BD: BlockDevice>(&self, fs: &Vsfs<BD>, path: &[u8]) -> (r: Result<File, VfsError>)
        ensures
            match resolve(
                fs.disk(),
                fs.superblock.inode_table_start as int,
                *self,
                path_components(path@),
                0,
            ) {
                Ok(n) => r == Ok::<File, VfsError>(File { inode: n, offset: 0 }),
                Err(e) => r == Err::<File, VfsError>(e),
            },
    {
        let comps = split_path(path);
        let ghost cs = path_components(path@);
        let ghost ts = fs.superblock.inode_table_start as int;
        let mut current = *self;
        let mut k: usize = 0;
        while k < comps.len()
            invariant
                k <= comps.len(),
                cs == path_components(path@),
                comps.len() == cs.len(),
                forall|t: int| 0 <= t < comps.len() ==> #[trigger] comps@[t]@ == cs[t],
                ts == fs.superblock.inode_table_start as int,
                resolve(fs.disk(), ts, *self, cs, 0) == resolve(fs.disk(), ts, current, cs, k as int),
            decreases comps.len() - k,
        {
            if current.inner.ty == Type::File {
                return Err(VfsError::Fs);
            }
            assert(comps@[k as int]@ == cs[k as int]);
            let next = match fs.lookup_path_inner(&current.inner, comps[k].as_slice()) {
                Ok(n) => n,
                Err(e) => return Err(e),
            };
            current = Vsfs::<BD>::next_inode(current, next);
            k += 1;
        }
        Ok(File { inode: current, offset: 0 })
    }

    /// Reads up to `buf.len()` bytes from byte `offset` on; past the end the
    /// count is 0.
    pub fn read<BD: BlockDevice>(&self, fs: &Vsfs<BD>, offset: usize, buf: &mut Vec<u8>) -> (r:
        Result<usize, VfsError>)
        ensures
            final(buf).len() == old(buf).len(),
            self.inner.ty != Type::File ==> r == Err::<usize, VfsError>(VfsError::Fs)
                && final(buf)@ == old(buf)@,
            self.inner.ty == Type::File ==> ({
                let n = span(self.inner.metadata.sz as int, offset as int, old(buf).len() as int);
                let out = read_from(fs.disk(), self.inner, false, offset as int, seq![], n);
                &&& final(buf)@ == out.0 + old(buf)@.subrange(out.0.len() as int, old(buf)@.len() as int)
                &&& match out.1 {
                    None => r == Ok::<usize, VfsError>(out.0.len() as usize),
                    Some(e) => r == Err::<usize, VfsError>(e),
                }
            }),
    {
        read_file(&fs.device, &self.inner, false, offset, buf)
    }

    /// Writes `buf` from byte `offset` on, within the current file size.
    pub fn write<BD: BlockDevice>(&self, fs: &mut Vsfs<BD>, offset: usize, buf: &[u8]) -> (r: Result<
        usize,
        VfsError,
    >)
        ensures
            final(fs).superblock == old(fs).superblock,
            self.inner.ty != Type::File ==> r == Err::<usize, VfsError>(VfsError::Fs)
                && final(fs).disk() == old(fs).disk(),
            self.inner.ty == Type::File ==> ({
                let n = span(self.inner.metadata.sz as int, offset as int, buf@.len() as int);
                let out = write_from(old(fs).disk(), self.inner, false, offset as int, buf@, 0, n, None);
                &&& final(fs).disk() == out.0
                &&& match out.2 {
                    None => r == Ok::<usize, VfsError>(out.1 as usize),
                    Some(e) => r == Err::<usize, VfsError>(e),
                }
            }),
    {
        write_file(&mut fs.device, &self.inner, false, offset, buf)
    }

    /// The file size recorded in the inode.
    pub fn sz(&self) -> (r: usize)
        ensures
            r == self.inner.metadata.sz,
    {
        self.inner.metadata.sz as usize
    }
}

/// A fresh empty regular file record.
pub open spec fn is_fresh_file(x: INodeInner) -> bool {
    &&& x.ty == Type::File
    &&& x.link_count == 1
    &&& x.metadata.dev == 0
    &&& x.metadata.sz == 0
    &&& forall|k: int| 0 <= k < 12 ==> #[trigger] x.direct_blocks@[k] == 0
    &&& x.indirect_block == 0
}

/// Directory `p` after one more entry, whose data block `idx` is `blk`.
pub open spec fn grown_dir(p: INodeInner, q: INodeInner, idx: int) -> bool {
    &&& q.ty == p.ty
    &&& q.link_count == p.link_count
    &&& q.metadata.dev == p.metadata.dev
    &&& q.metadata.sz == p.metadata.sz + 32
    &&& q.indirect_block == p.indirect_block
    &&& q.direct_blocks@ == p.direct_blocks@.update(idx, q.direct_blocks@[idx])
}

/// Creating `name` in directory `p0` on device `d` gets past the checks
/// made before anything is allocated: a name of 1 to 27 bytes, a directory
/// of whole entries with no entry of that name, and room for one more entry
/// in its direct blocks.
pub open spec fn create_checks_pass(d: Seq<u8>, sb: SuperBlock, p0: INode, name: Seq<u8>) -> bool {
    &&& 0 < name.len() <= 27
    &&& p0.inner.ty == Type::Directory
    &&& p0.inner.metadata.sz % 32 == 0
    &&& lookup_outcome(d, sb.inode_table_start as int, p0.inner, name) == Err::<INode, VfsError>(
        VfsError::NotFound,
    )
    &&& p0.inner.metadata.sz + 32 <= u32::MAX
    &&& p0.inner.metadata.sz as int / 4096 < 12
}

/// The creation gets past its checks and must take a data block for the
/// new entry from the data bitmap.
pub open spec fn create_needs_block(d: Seq<u8>, sb: SuperBlock, p0: INode, name: Seq<u8>) -> bool {
    create_checks_pass(d, sb, p0, name) && p0.inner.direct_blocks@[p0.inner.metadata.sz as int
        / 4096] == 0
}

/// The entry at byte `p` of `s` is cleared: number 0, no name.
pub open spec fn cleared_entry_at(s: Seq<u8>, p: int) -> bool {
    &&& le_u32(s, p) == 0
    &&& s[p + 4] == 0
    &&& forall|k: int| 0 <= k < 27 ==> #[trigger] s[p + 5 + k] == 0
}

/// What creating file `name` in directory `p0` on device `d` answers, and
/// the directory `p1` and device `d1` it leaves: the refusals that come
/// before anything is allocated leave both alone; past them, see
/// [`create_alloc_outcome`].
pub open spec fn create_file_outcome(
    d: Seq<u8>,
    sb: SuperBlock,
    p0: INode,
    name: Seq<u8>,
    r: Result<INode, VfsError>,
    p1: INode,
    d1: Seq<u8>,
) -> bool {
    let ts = sb.inode_table_start as int;
    let unchanged = p1 == p0 && d1 == d;
    let idx = p0.inner.metadata.sz as int / 4096;
    &&& p1.inum == p0.inum
    &&& if name.len() == 0 || name.len() > 27 {
        r == Err::<INode, VfsError>(VfsError::Fs) && unchanged
    } else if p0.inner.ty != Type::Directory || p0.inner.metadata.sz % 32 != 0 {
        r == Err::<INode, VfsError>(VfsError::Fs) && unchanged
    } else if lookup_outcome(d, ts, p0.inner, name) is Ok {
        r == Err::<INode, VfsError>(VfsError::Fs) && unchanged
    } else if lookup_outcome(d, ts, p0.inner, name) != Err::<INode, VfsError>(VfsError::NotFound) {
        r == lookup_outcome(d, ts, p0.inner, name) && unchanged
    } else if p0.inner.metadata.sz + 32 > u32::MAX || idx >= 12 {
        r == Err::<INode, VfsError>(VfsError::Fs) && unchanged
    } else {
        create_alloc_outcome(d, sb, p0, name, r, p1, d1)
    }
}

/// Creation past its checks: the directory's new data block, when one is
/// needed, then the inode number are taken from the bitmaps; a failed
/// allocation answers its error and leaves everything as it was.
pub open spec fn create_alloc_outcome(
    d: Seq<u8>,
    sb: SuperBlock,
    p0: INode,
    name: Seq<u8>,
    r: Result<INode, VfsError>,
    p1: INode,
    d1: Seq<u8>,
) -> bool {
    let dbb = sb.data_bitmap_block as int;
    let ibb = sb.inode_bitmap_block as int;
    let idx = p0.inner.metadata.sz as int / 4096;
    let need = p0.inner.direct_blocks@[idx] == 0;
    let dalloc = alloc_outcome(d, dbb, 0, sb.nblocks - sb.data_block_start);
    let blk = if need {
        sb.data_block_start + dalloc->Ok_0
    } else {
        p0.inner.direct_blocks@[idx] as int
    };
    let da = if need {
        set_bit(d, dbb, dalloc->Ok_0)
    } else {
        d
    };
    let ialloc = alloc_outcome(da, ibb, 1, sb.ninodes as int);
    if need && dalloc is Err {
        r == Err::<INode, VfsError>(dalloc->Err_0) && p1 == p0 && d1 == d
    } else if ialloc is Err {
        r == Err::<INode, VfsError>(ialloc->Err_0) && p1 == p0 && d1 == d
    } else {
        &&& create_write_outcome(d, sb, p0, name, blk, da, ialloc->Ok_0, r, p1, d1)
        &&& (r is Ok && need) ==> sb.data_block_start <= blk < sb.nblocks
    }
}

/// Creation once block `blk` holds the new entry and inode `inum` is taken
/// (`da` is the device after the data block was taken): a sector of the new
/// inode's record, of the new entry or of the directory's record that is not
/// on the device answers an I/O error. After such a failure the directory
/// record is unchanged and the bits taken are given back, so the device is
/// as it was but for the new inode's record when that was written; when the
/// directory's record cannot be written, the entry is cleared again and the
/// bits stay taken, since the directory on the device might still name them.
/// Otherwise a fresh file record is made, and the grown directory record is
/// what the table holds for the parent.
pub open spec fn create_write_outcome(
    d: Seq<u8>,
    sb: SuperBlock,
    p0: INode,
    name: Seq<u8>,
    blk: int,
    da: Seq<u8>,
    inum: int,
    r: Result<INode, VfsError>,
    p1: INode,
    d1: Seq<u8>,
) -> bool {
    let ts = sb.inode_table_start as int;
    let idx = p0.inner.metadata.sz as int / 4096;
    let ipos = inode_pos(ts, inum);
    let dpos = blk * 4096 + p0.inner.metadata.sz as int % 4096;
    let ppos = inode_pos(ts, p0.inum as int);
    if !sector_in_range(d, ipos / 512) {
        r == Err::<INode, VfsError>(VfsError::DeviceIO) && p1 == p0 && d1 == d
    } else if !sector_in_range(d, dpos / 512) {
        &&& r == Err::<INode, VfsError>(VfsError::DeviceIO)
        &&& p1 == p0
        &&& same_outside(d1, d, ipos, 64)
    } else if !sector_in_range(d, ppos / 512) {
        &&& r == Err::<INode, VfsError>(VfsError::DeviceIO)
        &&& p1 == p0
        &&& exists|dx: Seq<u8>, x: INodeInner|
            {
                &&& is_fresh_file(x)
                &&& inode_at(dx, ipos, x)
                &&& same_outside(dx, set_bit(da, sb.inode_bitmap_block as int, inum), ipos, 64)
                &&& cleared_entry_at(d1, dpos)
                &&& same_outside(d1, dx, dpos, 32)
            }
    } else {
        &&& r is Ok
        &&& is_fresh_file(r->Ok_0.inner)
        &&& r->Ok_0.inum == inum
        &&& 1 <= inum < sb.ninodes
        &&& grown_dir(p0.inner, p1.inner, idx)
        &&& p1.inner.direct_blocks@[idx] == blk
        &&& inode_read(d1, ts, p0.inum as int) == Ok::<INodeInner, VfsError>(p1.inner)
        &&& created_on_disk(d, sb, p0, p1, r->Ok_0, name, d1)
    }
}

/// The device `d` after reserving the directory's new data block, when one
/// was needed.
pub open spec fn with_dir_block(d: Seq<u8>, sb: SuperBlock, p0: INode, p1: INode) -> Seq<u8> {
    let idx = p0.inner.metadata.sz as int / 4096;
    if p0.inner.direct_blocks@[idx] == 0 {
        set_bit(d, sb.data_bitmap_block as int, p1.inner.direct_blocks@[idx] - sb.data_block_start)
    } else {
        d
    }
}

/// The writes a successful creation of file `made` named `name` in
/// directory `p0` (which becomes `p1`) makes on device `d`, leaving `d1`: the
/// directory's block and the inode number are taken from the bitmaps, the
/// new inode's record is written, then the entry at the directory's old end,
/// then the directory's grown record.
pub open spec fn created_on_disk(
    d: Seq<u8>,
    sb: SuperBlock,
    p0: INode,
    p1: INode,
    made: INode,
    name: Seq<u8>,
    d1: Seq<u8>,
) -> bool {
    let ts = sb.inode_table_start as int;
    let idx = p0.inner.metadata.sz as int / 4096;
    let dpos = p1.inner.direct_blocks@[idx] * 4096 + p0.inner.metadata.sz as int % 4096;
    let da = with_dir_block(d, sb, p0, p1);
    let db0 = set_bit(da, sb.inode_bitmap_block as int, made.inum as int);
    let ipos = inode_pos(ts, made.inum as int);
    let ppos = inode_pos(ts, p0.inum as int);
    &&& p0.inner.direct_blocks@[idx] == 0 ==> alloc_outcome(
        d,
        sb.data_bitmap_block as int,
        0,
        sb.nblocks - sb.data_block_start,
    ) == Ok::<int, VfsError>(p1.inner.direct_blocks@[idx] - sb.data_block_start)
    &&& alloc_outcome(da, sb.inode_bitmap_block as int, 1, sb.ninodes as int) == Ok::<int, VfsError>(
        made.inum as int,
    )
    &&& exists|db: Seq<u8>, dc: Seq<u8>|
        {
            &&& sector_in_range(db0, ipos / 512)
            &&& inode_at(db, ipos, made.inner)
            &&& same_outside(db, db0, ipos, 64)
            &&& sector_in_range(db, dpos / 512)
            &&& le_u32(dc, dpos) == made.inum
            &&& dc[dpos + 4] == name.len()
            &&& (forall|t: int| 0 <= t < name.len() ==> #[trigger] dc[dpos + 5 + t] == name[t])
            &&& same_outside(dc, db, dpos, 32)
            &&& inode_at(d1, ppos, p1.inner)
            &&& same_outside(d1, dc, ppos, 64)
        }
}

impl<BD: BlockDevice> Vsfs<BD> {
    /// Allocates an inode number from the inode bitmap; number 0 is never
    /// handed out.
    pub fn allocate_inode(&mut self) -> (r: Result<u32, VfsError>)
        ensures
            final(self).superblock == old(self).superblock,
            match alloc_outcome(
                old(self).disk(),
                old(self).superblock.inode_bitmap_block as int,
                1,
                old(self).superblock.ninodes as int,
            ) {
                Ok(b) => r == Ok::<u32, VfsError>(b as u32) && final(self).disk() == set_bit(
                    old(self).disk(),
                    old(self).superblock.inode_bitmap_block as int,
                    b,
                ) && 1 <= b < old(self).superblock.ninodes,
                Err(e) => r == Err::<u32, VfsError>(e) && final(self).disk() == old(self).disk(),
            },
    {
        proof {
            lemma_scan_bounds(
                self.disk(),
                self.superblock.inode_bitmap_block as int,
                1,
                self.superblock.ninodes as int,
            );
        }
        match self.allocate_bitmap_bit(
            self.superblock.inode_bitmap_block,
            1,
            self.superblock.ninodes as usize,
        ) {
            Ok(b) => Ok(b as u32),
            Err(e) => Err(e),
        }
    }

    /// Allocates a data block from the data bitmap; bit `i` is block
    /// `data_block_start + i`.
    pub fn allocate_data_block(&mut self) -> (r: Result<u32, VfsError>)
        requires
            old(self).superblock.data_block_start <= old(self).superblock.nblocks,
        ensures
            final(self).superblock == old(self).superblock,
            match alloc_outcome(
                old(self).disk(),
                old(self).superblock.data_bitmap_block as int,
                0,
                old(self).superblock.nblocks - old(self).superblock.data_block_start,
            ) {
                Ok(b) => r == Ok::<u32, VfsError>((old(self).superblock.data_block_start + b) as u32)
                    && final(self).disk() == set_bit(
                    old(self).disk(),
                    old(self).superblock.data_bitmap_block as int,
                    b,
                ) && 0 <= b < old(self).superblock.nblocks - old(self).superblock.data_block_start,
                Err(e) => r == Err::<u32, VfsError>(e) && final(self).disk() == old(self).disk(),
            },
    {
        let end = self.superblock.nblocks - self.superblock.data_block_start;
        proof {
            lemma_scan_bounds(self.disk(), self.superblock.data_bitmap_block as int, 0, end as int);
        }
        match self.allocate_bitmap_bit(self.superblock.data_bitmap_block, 0, end as usize) {
            Ok(bit) => Ok(self.superblock.data_block_start + bit as u32),
            Err(e) => Err(e),
        }
    }

    /// Returns inode number `inum` to the inode bitmap.
    pub fn free_inode(&mut self, inum: u32) -> (r: Result<(), VfsError>)
        ensures
            final(self).superblock == old(self).superblock,
            final(self).disk() == free_outcome(
                old(self).disk(),
                old(self).superblock.inode_bitmap_block as int,
                inum as int,
            ),
            r == free_result(
                old(self).disk(),
                old(self).superblock.inode_bitmap_block as int,
                inum as int,
            ),
    {
        self.free_bitmap_bit(self.superblock.inode_bitmap_block, inum as usize)
    }

    /// Returns data block `block` to the data bitmap; a block before the data
    /// area is malformed.
    pub fn free_data_block(&mut self, block: u32) -> (r: Result<(), VfsError>)
        ensures
            final(self).superblock == old(self).superblock,
            block < old(self).superblock.data_block_start ==> r == Err::<(), VfsError>(VfsError::Fs)
                && final(self).disk() == old(self).disk(),
            block >= old(self).superblock.data_block_start ==> final(self).disk() == free_outcome(
                old(self).disk(),
                old(self).superblock.data_bitmap_block as int,
                block - old(self).superblock.data_block_start,
            ) && r == free_result(
                old(self).disk(),
                old(self).superblock.data_bitmap_block as int,
                block - old(self).superblock.data_block_start,
            ),
    {
        let bit = match block.checked_sub(self.superblock.data_block_start) {
            Some(b) => b,
            None => return Err(VfsError::Fs),
        };
        self.free_bitmap_bit(self.superblock.data_bitmap_block, bit as usize)
    }

    /// Best-effort release of what a failed file creation reserved.
    pub fn free_create_allocations(&mut self, inum: Option<u32>, data_block: Option<u32>)
        ensures
            final(self).superblock == old(self).superblock,
            ({
                let sb = old(self).superblock;
                let d1 = match inum {
                    Some(i) => free_outcome(old(self).disk(), sb.inode_bitmap_block as int, i as int),
                    None => old(self).disk(),
                };
                final(self).disk() == match data_block {
                    Some(b) => if b >= sb.data_block_start {
                        free_outcome(d1, sb.data_bitmap_block as int, b - sb.data_block_start)
                    } else {
                        d1
                    },
                    None => d1,
                }
            }),
    {
        if let Some(i) = inum {
            let _ = self.free_inode(i);
        }
        if let Some(b) = data_block {
            let _ = self.free_data_block(b);
        }
    }

    /// Creates an empty regular file `name` in directory `parent`: reserves
    /// a data block for the new entry when the directory needs one and an
    /// inode, writes the inode record, the entry and the grown directory
    /// record, and on failure undoes what it can.
    pub fn create_file(&mut self, parent: &mut INode, name: &[u8]) -> (r: Result<INode, VfsError>)
        requires
            create_needs_block(old(self).disk(), old(self).superblock, *old(parent), name@) ==> old(
                self,
            ).superblock.data_block_start <= old(self).superblock.nblocks,
        ensures
            final(self).superblock == old(self).superblock,
            create_file_outcome(
                old(self).disk(),
                old(self).superblock,
                *old(parent),
                name@,
                r,
                *final(parent),
                final(self).disk(),
            ),
    {
        if name.len() == 0 || name.len() > NAME_CAPACITY {
            return Err(VfsError::Fs);
        }
        if parent.inner.ty != Type::Directory || parent.inner.metadata.sz as usize % DIRENT_SIZE
            != 0 {
            return Err(VfsError::Fs);
        }
        match self.lookup_path_inner(&parent.inner, name) {
            Ok(_) => return Err(VfsError::Fs),
            Err(VfsError::NotFound) => {},
            Err(err) => return Err(err),
        }
        let original_parent = parent.inner;
        let mut updated_parent = original_parent;
        updated_parent.metadata.sz = match original_parent.metadata.sz.checked_add(DIRENT_SIZE as u32) {
            Some(v) => v,
            None => return Err(VfsError::Fs),
        };
        let dirent_offset = original_parent.metadata.sz as usize;
        let block_idx = dirent_offset / BLOCK_SIZE;
        let block_offset = dirent_offset % BLOCK_SIZE;
        if block_idx >= DIRECT_BLOCKS {
            return Err(VfsError::Fs);
        }
        let ghost d0 = self.disk();
        let ghost sb = self.superblock;
        let ghost dbb = sb.data_bitmap_block as int;
        let ghost ibb = sb.inode_bitmap_block as int;
        proof {
            reveal(lookup_outcome);
            assert(create_checks_pass(d0, sb, *old(parent), name@));
        }
        let allocated_data_block = if updated_parent.direct_blocks[block_idx] == 0 {
            let block = match self.allocate_data_block() {
                Ok(b) => b,
                Err(e) => return Err(e),
            };
            proof {
                lemma_scan_bounds(
                    old(self).disk(),
                    self.superblock.data_bitmap_block as int,
                    0,
                    self.superblock.nblocks - self.superblock.data_block_start,
                );
                crate::vsfs_laws::lemma_alloc_ok(
                    d0,
                    dbb,
                    0,
                    sb.nblocks - sb.data_block_start,
                    block - sb.data_block_start,
                );
            }
            updated_parent.direct_blocks[block_idx] = block;
            Some(block)
        } else {
            None
        };
        let ghost bit = match allocated_data_block {
            Some(blk) => blk - sb.data_block_start,
            None => 0,
        };
        let ghost da = self.disk();
        let inum = match self.allocate_inode() {
            Ok(i) => i,
            Err(err) => {
                self.free_create_allocations(None, allocated_data_block);
                proof {
                    if allocated_data_block is Some {
                        crate::vsfs_laws::lemma_free_after_set(d0, da, dbb, bit, 0, 0);
                        assert(self.disk() =~= d0);
                    }
                }
                return Err(err);
            },
        };
        proof {
            assert(updated_parent.direct_blocks@ =~= original_parent.direct_blocks@.update(
                block_idx as int,
                updated_parent.direct_blocks@[block_idx as int],
            ));
        }
        self.write_new_file(
            parent,
            name,
            updated_parent,
            block_offset,
            allocated_data_block,
            inum,
            Ghost(d0),
            Ghost(da),
        )
    }

    /// The writes of a file creation once its bits are taken: the new
    /// inode's record, its entry at `block_offset` of the directory's block,
    /// and the grown directory record `updated_parent`. On failure the bits
    /// are given back, unless the directory's old record cannot be written
    /// back.
    #[verifier::rlimit(40)]
    fn write_new_file(
        &mut self,
        parent: &mut INode,
        name: &[u8],
        updated_parent: INodeInner,
        block_offset: usize,
        allocated_data_block: Option<u32>,
        inum: u32,
        Ghost(d0): Ghost<Seq<u8>>,
        Ghost(da): Ghost<Seq<u8>>,
    ) -> (r: Result<INode, VfsError>)
        requires
            ({
                let sb = old(self).superblock;
                let p0 = *old(parent);
                let idx = p0.inner.metadata.sz as int / 4096;
                let blk = updated_parent.direct_blocks@[idx] as int;
                &&& create_checks_pass(d0, sb, p0, name@)
                &&& block_offset == p0.inner.metadata.sz as int % 4096
                &&& grown_dir(p0.inner, updated_parent, idx)
                &&& (p0.inner.direct_blocks@[idx] == 0) == allocated_data_block is Some
                &&& allocated_data_block is Some ==> {
                    &&& allocated_data_block->0 == blk
                    &&& sb.data_block_start <= blk
                    &&& alloc_outcome(d0, sb.data_bitmap_block as int, 0, sb.nblocks - sb.data_block_start)
                        == Ok::<int, VfsError>(blk - sb.data_block_start)
                    &&& da == set_bit(d0, sb.data_bitmap_block as int, blk - sb.data_block_start)
                }
                &&& allocated_data_block is None ==> da == d0 && blk == p0.inner.direct_blocks@[idx]
                &&& alloc_outcome(da, sb.inode_bitmap_block as int, 1, sb.ninodes as int) == Ok::<
                    int,
                    VfsError,
                >(inum as int)
                &&& old(self).disk() == set_bit(da, sb.inode_bitmap_block as int, inum as int)
            }),
        ensures
            final(self).superblock == old(self).superblock,
            final(parent).inum == old(parent).inum,
            create_write_outcome(
                d0,
                old(self).superblock,
                *old(parent),
                name@,
                updated_parent.direct_blocks@[old(parent).inner.metadata.sz as int / 4096] as int,
                da,
                inum as int,
                r,
                *final(parent),
                final(self).disk(),
            ),
    {
        let ghost sb = self.superblock;
        let ghost dbb = sb.data_bitmap_block as int;
        let ghost ibb = sb.inode_bitmap_block as int;
        let ghost idx = parent.inner.metadata.sz as int / 4096;
        let ghost bit = updated_parent.direct_blocks@[idx] - sb.data_block_start;
        let ghost db0 = self.disk();
        let ghost ipos = inode_pos(sb.inode_table_start as int, inum as int);
        let original_parent = parent.inner;
        let block_idx = original_parent.metadata.sz as usize / BLOCK_SIZE;
        proof {
            crate::vsfs_laws::lemma_alloc_ok(da, ibb, 1, sb.ninodes as int, inum as int);
            if allocated_data_block is Some {
                crate::vsfs_laws::lemma_alloc_ok(d0, dbb, 0, sb.nblocks - sb.data_block_start, bit);
            }
            let sz = original_parent.metadata.sz;
            assert(sz % 32 == 0 ==> (sz % 4096) % 512 + 32 <= 512 && (sz % 4096) / 512 < 8) by (bit_vector);
        }
        let inode_inner = INodeInner {
            ty: Type::File,
            link_count: 1,
            metadata: Metadata { dev: 0, sz: 0 },
            direct_blocks: [0u32; DIRECT_BLOCKS],
            indirect_block: 0,
        };
        match self.write_inode_to_block(inum, &inode_inner) {
            Ok(()) => {},
            Err(err) => {
                self.free_create_allocations(Some(inum), allocated_data_block);
                proof {
                    crate::vsfs_laws::lemma_free_after_set(da, db0, ibb, inum as int, 0, 0);
                    let fi = free_outcome(db0, ibb, inum as int);
                    if allocated_data_block is Some {
                        crate::vsfs_laws::lemma_free_after_set(d0, fi, dbb, bit, 0, 0);
                    }
                    assert(self.disk() =~= d0);
                }
                return Err(err);
            },
        }
        let ghost db = self.disk();
        let mut dirent = DirEnt { inum, name_len: name.len() as u8, name: [0u8; NAME_CAPACITY] };
        let mut k: usize = 0;
        while k < name.len()
            invariant
                k <= name.len(),
                name.len() <= NAME_CAPACITY,
                dirent.inum == inum,
                dirent.name_len == name.len(),
                forall|t: int| 0 <= t < k ==> #[trigger] dirent.name@[t] == name@[t],
            decreases name.len() - k,
        {
            dirent.name[k] = name[k];
            k += 1;
        }
        match self.write_dirent(updated_parent.direct_blocks[block_idx], block_offset, &dirent) {
            Ok(()) => {},
            Err(err) => {
                self.free_create_allocations(Some(inum), allocated_data_block);
                proof {
                    crate::vsfs_laws::lemma_free_after_set(da, db, ibb, inum as int, ipos, 64);
                    let fi = free_outcome(db, ibb, inum as int);
                    if allocated_data_block is Some {
                        crate::vsfs_laws::lemma_free_after_set(d0, fi, dbb, bit, ipos, 64);
                    }
                }
                return Err(err);
            },
        }
        let ghost dc = self.disk();
        match self.write_inode_to_block(parent.inum, &updated_parent) {
            Ok(()) => {},
            Err(err) => {
                let empty_dirent = DirEnt { inum: 0, name_len: 0, name: [0u8; NAME_CAPACITY] };
                let _ = self.write_dirent(
                    updated_parent.direct_blocks[block_idx],
                    block_offset,
                    &empty_dirent,
                );
                let ghost de = self.disk();
                // If this fails the parent on disk may still name the new
                // resources, so they are leaked rather than freed.
                if self.write_inode_to_block(parent.inum, &original_parent).is_ok() {
                    self.free_create_allocations(Some(inum), allocated_data_block);
                }
                proof {
                    let dpos = updated_parent.direct_blocks@[block_idx as int] * 4096 + block_offset;
                    assert(self.disk() == de);
                    assert(same_outside(de, db, dpos, 32));
                    assert forall|t: int| 0 <= t < 27 implies #[trigger] de[dpos + 5 + t] == 0 by {
                        assert(de[dpos + 5 + t] == empty_dirent.name@[t]);
                    }
                    assert(cleared_entry_at(de, dpos));
                }
                return Err(err);
            },
        }
        proof {
            lemma_inode_at_is_from_bytes(
                self.disk(),
                inode_pos(self.superblock.inode_table_start as int, parent.inum as int),
                updated_parent,
            );
        }
        proof {
            let dpos = updated_parent.direct_blocks@[block_idx as int] * 4096 + block_offset;
            assert forall|t: int| 0 <= t < name@.len() implies #[trigger] dc[dpos + 5 + t] == name@[t] by {
                assert(dc[dpos + 5 + t] == dirent.name@[t]);
            }
            assert(da == with_dir_block(d0, self.superblock, *old(parent), INode { inum: parent.inum, inner: updated_parent }));
        }
        parent.inner = updated_parent;
        Ok(INode { inum, inner: inode_inner })
    }
}

/// What creating `path` relative to `start` on device `d` answers, and the
/// device `d1` it leaves: the walk's error with nothing changed, or what
/// creating the last component in its parent directory answers.
pub open spec fn create_outcome(
    d: Seq<u8>,
    sb: SuperBlock,
    start: INode,
    path: Seq<u8>,
    r: Result<File, VfsError>,
    d1: Seq<u8>,
) -> bool {
    match create_walk(d, sb.inode_table_start as int, start, path_components(path), 0) {
        Err(e) => r == Err::<File, VfsError>(e) && d1 == d,
        Ok((dir, last)) => (r is Ok ==> r->Ok_0.offset == 0) && exists|p1: INode|
            #[trigger] create_file_outcome(d, sb, dir, last, opened_inode(r), p1, d1),
    }
}

/// The inode of an opened file, or the error.
pub open spec fn opened_inode(r: Result<File, VfsError>) -> Result<INode, VfsError> {
    match r {
        Ok(f) => Ok(f.inode),
        Err(e) => Err(e),
    }
}

impl INode {
    /// Creates the empty regular file `path`, relative to this inode: every
    /// component but the last must exist, and the last must not.
    pub fn create<BD: BlockDevice>(&self, fs: &mut Vsfs<BD>, path: &[u8]) -> (r: Result<
        File,
        VfsError,
    >)
        requires
            match create_walk(
                old(fs).disk(),
                old(fs).superblock.inode_table_start as int,
                *self,
                path_components(path@),
                0,
            ) {
                Ok((dir, last)) => create_needs_block(old(fs).disk(), old(fs).superblock, dir, last)
                    ==> old(fs).superblock.data_block_start <= old(fs).superblock.nblocks,
                Err(_) => true,
            },
        ensures
            final(fs).superblock == old(fs).superblock,
            create_outcome(old(fs).disk(), old(fs).superblock, *self, path@, r, final(fs).disk()),
    {
        let comps = split_path(path);
        let ghost cs = path_components(path@);
        let ghost ts = fs.superblock.inode_table_start as int;
        let mut current = *self;
        let mut err: Option<VfsError> = None;
        let mut leaf: Option<usize> = None;
        let mut k: usize = 0;
        while k < comps.len()
            invariant
                k <= comps.len(),
                cs == path_components(path@),
                comps.len() == cs.len(),
                forall|t: int| 0 <= t < comps.len() ==> #[trigger] comps@[t]@ == cs[t],
                ts == fs.superblock.inode_table_start as int,
                fs.disk() == old(fs).disk(),
                fs.superblock == old(fs).superblock,
                err is None ==> create_walk(fs.disk(), ts, *self, cs, 0) == create_walk(
                    fs.disk(),
                    ts,
                    current,
                    cs,
                    k as int,
                ) && leaf is None,
                err is Some ==> k >= 1 && create_walk(fs.disk(), ts, *self, cs, 0) == (if k
                    < cs.len() {
                    Err::<(INode, Seq<u8>), VfsError>(err->0)
                } else if err->0 == VfsError::NotFound {
                    Ok((current, cs[k - 1]))
                } else {
                    Err(VfsError::Fs)
                }) && leaf == (if err->0 == VfsError::NotFound && k == cs.len() {
                    Some((k - 1) as usize)
                } else {
                    None
                }),
            decreases comps.len() - k,
        {
            if let Some(e) = err {
                return Err(e);
            }
            let is_leaf = k + 1 == comps.len();
            if current.inner.ty == Type::File {
                return Err(VfsError::Fs);
            }
            assert(comps@[k as int]@ == cs[k as int]);
            match fs.lookup_path_inner(&current.inner, comps[k].as_slice()) {
                Ok(next) => {
                    current = Vsfs::<BD>::next_inode(current, next);
                },
                Err(e) => {
                    if e == VfsError::NotFound && is_leaf {
                        leaf = Some(k);
                    }
                    err = Some(e);
                },
            }
            k += 1;
        }
        if err == Some(VfsError::NotFound) {
            let leaf = match leaf {
                Some(l) => l,
                None => return Err(VfsError::Fs),
            };
            assert(comps@[leaf as int]@ == cs[leaf as int]);
            let mut parent = current;
            let ghost p0 = parent;
            let rc = fs.create_file(&mut parent, comps[leaf].as_slice());
            let r = match rc {
                Ok(inode) => Ok(File { inode, offset: 0 }),
                Err(e) => Err(e),
            };
            assert(create_walk(old(fs).disk(), ts, *self, cs, 0) == Ok::<(INode, Seq<u8>), VfsError>(
                (p0, cs[leaf as int]),
            ));
            assert(create_file_outcome(
                old(fs).disk(),
                old(fs).superblock,
                p0,
                cs[leaf as int],
                rc,
                parent,
                fs.disk(),
            ) && opened_inode(r) == rc);
            assert(exists|p1: INode| #[trigger] create_file_outcome(
                old(fs).disk(),
                old(fs).superblock,
                p0,
                cs[leaf as int],
                opened_inode(r),
                p1,
                fs.disk(),
            ));
            assert(r is Ok ==> r->Ok_0.offset == 0);
            assert(create_walk(
                old(fs).disk(),
                old(fs).superblock.inode_table_start as int,
                *self,
                path_components(path@),
                0,
            ) == Ok::<(INode, Seq<u8>), VfsError>((p0, cs[leaf as int])));
            proof {
                let cw = create_walk(
                    old(fs).disk(),
                    old(fs).superblock.inode_table_start as int,
                    *self,
                    path_components(path@),
                    0,
                );
                assert(cw->Ok_0.0 == p0);
                assert(cw->Ok_0.1 == cs[leaf as int]);
                assert(create_file_outcome(
                    old(fs).disk(),
                    old(fs).superblock,
                    cw->Ok_0.0,
                    cw->Ok_0.1,
                    opened_inode(r),
                    parent,
                    fs.disk(),
                ));
            }
            assert(create_outcome(old(fs).disk(), old(fs).superblock, *self, path@, r, fs.disk()));
            return r;
        }
        Err(VfsError::Fs)
    }
}

/// Mounting a device of contents `d`: the superblock in sector 0 must carry
/// the magic number, and the root inode must be readable.
pub open spec fn mount_outcome(d: Seq<u8>) -> Result<SuperBlock, VfsError> {
    if !sector_in_range(d, 0) {
        Err(VfsError::DeviceIO)
    } else {
        let sb = SuperBlock {
            magic: le_u32(d, 0) as u32,
            nblocks: le_u32(d, 4) as u32,
            ninodes: le_u32(d, 8) as u32,
            inode_bitmap_block: le_u32(d, 12) as u32,
            data_bitmap_block: le_u32(d, 16) as u32,
            inode_table_start: le_u32(d, 20) as u32,
            inode_table_blocks: le_u32(d, 24) as u32,
            data_block_start: le_u32(d, 28) as u32,
        };
        if sb.magic != MAGIC {
            Err(VfsError::Fs)
        } else {
            match inode_read(d, sb.inode_table_start as int, 1) {
                Ok(_) => Ok(sb),
                Err(e) => Err(e),
            }
        }
    }
}

/// Mounts the VSFS image on `device`: reads and checks the superblock and
/// checks that the root inode can be read.
pub fn initialize<BD: BlockDevice>(device: BD) -> (r: Result<Vsfs<BD>, VfsError>)
    ensures
        match mount_outcome(device.contents()) {
            Ok(sb) => r is Ok && r->Ok_0.superblock == sb && r->Ok_0.disk() == device.contents(),
            Err(e) => r is Err && r->Err_0 == e,
        },
{
    let mut buf = sector_buffer();
    match device.read_sector(0, &mut buf) {
        Ok(()) => {},
        Err(e) => return Err(e),
    }
    let sb = decode_superblock(&buf);
    proof {
        let d = device.contents();
        assert(forall|t: int| 0 <= t < 32 ==> buf@[t] == d[t]);
        assert(le_u32(buf@, 0) == le_u32(d, 0));
        assert(le_u32(buf@, 4) == le_u32(d, 4));
        assert(le_u32(buf@, 8) == le_u32(d, 8));
        assert(le_u32(buf@, 12) == le_u32(d, 12));
        assert(le_u32(buf@, 16) == le_u32(d, 16));
        assert(le_u32(buf@, 20) == le_u32(d, 20));
        assert(le_u32(buf@, 24) == le_u32(d, 24));
        assert(le_u32(buf@, 28) == le_u32(d, 28));
    }
    if sb.magic != MAGIC {
        return Err(VfsError::Fs);
    }
    let vsfs = Vsfs { superblock: sb, device };
    match vsfs.read_inode(1) {
        Ok(_) => {},
        Err(e) => return Err(e),
    }
    Ok(vsfs)
}

impl File {
    /// Moves the offset to `offset`, which may not pass the end of the file;
    /// only a regular file can be moved in.
    pub fn seek_start(&mut self, offset: usize) -> (r: Result<usize, VfsError>)
        ensures
            final(self).inode == old(self).inode,
            if old(self).inode.inner.ty != Type::File || offset > old(self).inode.inner.metadata.sz {
                r == Err::<usize, VfsError>(VfsError::Fs) && *final(self) == *old(self)
            } else {
                r == Ok::<usize, VfsError>(offset) && final(self).offset == offset
            },
    {
        if self.inode.inner.ty != Type::File || offset > self.inode.inner.metadata.sz as usize {
            return Err(VfsError::Fs);
        }
        self.offset = offset;
        Ok(offset)
    }

    /// Reads from the offset into `buf` and moves the offset past what was
    /// read.
    pub fn read<BD: BlockDevice>(&mut self, fs: &Vsfs<BD>, buf: &mut Vec<u8>) -> (r: Result<
        usize,
        VfsError,
    >)
        ensures
            final(buf).len() == old(buf).len(),
            final(self).inode == old(self).inode,
            old(self).inode.inner.ty != Type::File ==> r == Err::<usize, VfsError>(VfsError::Fs)
                && final(buf)@ == old(buf)@ && final(self).offset == old(self).offset,
            old(self).inode.inner.ty == Type::File ==> ({
                let n = span(
                    old(self).inode.inner.metadata.sz as int,
                    old(self).offset as int,
                    old(buf).len() as int,
                );
                let out = read_from(
                    fs.disk(),
                    old(self).inode.inner,
                    false,
                    old(self).offset as int,
                    seq![],
                    n,
                );
                &&& final(buf)@ == out.0 + old(buf)@.subrange(out.0.len() as int, old(buf)@.len() as int)
                &&& match out.1 {
                    None => r == Ok::<usize, VfsError>(out.0.len() as usize) && final(self).offset
                        == old(self).offset + out.0.len(),
                    Some(e) => r == Err::<usize, VfsError>(e) && final(self).offset == old(self).offset,
                }
            }),
    {
        let r = self.inode.read(fs, self.offset, buf);
        proof {
            if self.inode.inner.ty == Type::File {
                lemma_read_from_len(
                    fs.disk(),
                    self.inode.inner,
                    false,
                    self.offset as int,
                    seq![],
                    span(self.inode.inner.metadata.sz as int, self.offset as int, old(buf).len() as int),
                );
            }
        }
        match r {
            Ok(n) => {
                self.offset = self.offset + n;
                Ok(n)
            },
            Err(e) => Err(e),
        }
    }

    /// Writes `buf` from the offset on, within the file size, and moves the
    /// offset past what was written.
    pub fn write<BD: BlockDevice>(&mut self, fs: &mut Vsfs<BD>, buf: &[u8]) -> (r: Result<
        usize,
        VfsError,
    >)
        ensures
            final(fs).superblock == old(fs).superblock,
            final(self).inode == old(self).inode,
            old(self).inode.inner.ty != Type::File ==> r == Err::<usize, VfsError>(VfsError::Fs)
                && final(fs).disk() == old(fs).disk() && final(self).offset == old(self).offset,
            old(self).inode.inner.ty == Type::File ==> ({
                let n = span(
                    old(self).inode.inner.metadata.sz as int,
                    old(self).offset as int,
                    buf@.len() as int,
                );
                let out = write_from(
                    old(fs).disk(),
                    old(self).inode.inner,
                    false,
                    old(self).offset as int,
                    buf@,
                    0,
                    n,
                    None,
                );
                &&& final(fs).disk() == out.0
                &&& match out.2 {
                    None => r == Ok::<usize, VfsError>(out.1 as usize) && final(self).offset
                        == old(self).offset + out.1,
                    Some(e) => r == Err::<usize, VfsError>(e) && final(self).offset == old(self).offset,
                }
            }),
    {
        let r = self.inode.write(fs, self.offset, buf);
        proof {
            if self.inode.inner.ty == Type::File {
                lemma_write_from_count(
                    old(fs).disk(),
                    self.inode.inner,
                    false,
                    self.offset as int,
                    buf@,
                    0,
                    span(self.inode.inner.metadata.sz as int, self.offset as int, buf@.len() as int),
                    None,
                );
            }
        }
        match r {
            Ok(n) => {
                self.offset = self.offset + n;
                Ok(n)
            },
            Err(e) => Err(e),
        }
    }
}

} // verus!
