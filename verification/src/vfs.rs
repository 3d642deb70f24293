//! The kernel's file layer over a VSFS device: opening absolute paths from
//! the root inode, and reading, writing and seeking open files. Files are
//! reached through their direct blocks only.
use vstd::prelude::*;
use crate::vsfs::{
    BlockDevice, INodeInner, SuperBlock, Type, decode_dirent, dirent_at, inode_read, le_u32,
    lemma_dirent_window, lemma_read_from_len, lemma_write_from_count, names_equal,
    path_components, read_chunks, read_from, read_inode_record, sector_buffer, sector_in_range,
    span, split_path, write_chunks, write_from, NAME_CAPACITY,
};

verus! {

/// An open file of the kernel: the inode record and the byte offset.
#[derive(Clone, Copy, Debug)]
pub struct File {
    pub inode: INodeInner,
    pub offset: usize,
}

/// Where a seek is measured from.
#[derive(Clone, Copy, Debug)]
pub enum SeekFrom {
    /// From the start of the file.
    Start(usize),
    /// From the current offset.
    Current(isize),
    /// From the end of the file.
    End(isize),
}

/// `base + offset`, if it is a `usize`.
pub open spec fn offset_spec(base: int, offset: int) -> Option<usize> {
    if 0 <= base + offset <= usize::MAX {
        Some((base + offset) as usize)
    } else {
        None
    }
}

/// Adds a signed offset to `base`, failing on overflow in either direction.
pub fn checked_offset(base: usize, offset: isize) -> (r: Option<usize>)
    ensures
        r == offset_spec(base as int, offset as int),
{
    if offset >= 0 {
        base.checked_add(offset as usize)
    } else {
        let magnitude: usize = if offset == isize::MIN {
            (isize::MAX as usize) + 1
        } else {
            (-offset) as usize
        };
        base.checked_sub(magnitude)
    }
}

/// The offset a seek asks for in a file of `size` bytes at offset `cur`.
pub open spec fn seek_target(cur: usize, size: int, pos: SeekFrom) -> Option<usize> {
    match pos {
        SeekFrom::Start(o) => Some(o),
        SeekFrom::Current(o) => offset_spec(cur as int, o as int),
        SeekFrom::End(o) => offset_spec(size, o as int),
    }
}

/// Moves the offset of a regular file; the new offset may not pass the end.
pub fn seek(file: &mut File, pos: SeekFrom) -> (r: Result<usize, ()>)
    ensures
        final(file).inode == old(file).inode,
        ({
            let target = seek_target(old(file).offset, old(file).inode.metadata.sz as int, pos);
            if old(file).inode.ty != Type::File || target is None || target->0
                > old(file).inode.metadata.sz {
                r == Err::<usize, ()>(()) && *final(file) == *old(file)
            } else {
                r == Ok::<usize, ()>(target->0) && final(file).offset == target->0
            }
        }),
{
    if file.inode.ty != Type::File {
        return Err(());
    }
    let file_size = file.inode.metadata.sz as usize;
    let new_offset = match pos {
        SeekFrom::Start(offset) => Some(offset),
        SeekFrom::Current(offset) => checked_offset(file.offset, offset),
        SeekFrom::End(offset) => checked_offset(file_size, offset),
    };
    let new_offset = match new_offset {
        Some(o) => o,
        None => return Err(()),
    };
    if new_offset > file_size {
        return Err(());
    }
    file.offset = new_offset;
    Ok(file.offset)
}

/// Reads from the file's offset into `buf` and moves the offset past what
/// was read, also when a device error stops the read.
pub fn read<BD: BlockDevice>(dev: &BD, file: &mut File, buf: &mut Vec<u8>) -> (r: Result<usize, ()>)
    ensures
        final(buf).len() == old(buf).len(),
        final(file).inode == old(file).inode,
        old(file).inode.ty != Type::File ==> r == Err::<usize, ()>(()) && final(buf)@ == old(buf)@
            && final(file).offset == old(file).offset,
        old(file).inode.ty == Type::File ==> ({
            let n = span(
                old(file).inode.metadata.sz as int,
                old(file).offset as int,
                old(buf).len() as int,
            );
            let out = read_from(dev.contents(), old(file).inode, true, old(file).offset as int, seq![], n);
            &&& final(buf)@ == out.0 + old(buf)@.subrange(out.0.len() as int, old(buf)@.len() as int)
            &&& final(file).offset == old(file).offset + out.0.len()
            &&& r == if out.1 is None {
                Ok::<usize, ()>(out.0.len() as usize)
            } else {
                Err(())
            }
        }),
{
    let (n, err) = read_chunks(dev, &file.inode, true, file.offset, buf);
    proof {
        if file.inode.ty == Type::File {
            lemma_read_from_len(
                dev.contents(),
                file.inode,
                true,
                file.offset as int,
                seq![],
                span(file.inode.metadata.sz as int, file.offset as int, old(buf).len() as int),
            );
        }
    }
    file.offset = file.offset + n;
    match err {
        None => Ok(n),
        Some(_) => Err(()),
    }
}

/// Writes `buf` at the file's offset, within the file's size, and moves the
/// offset past what was written, also when a device error stops the write.
pub fn write<BD: BlockDevice>(dev: &mut BD, file: &mut File, buf: &[u8]) -> (r: Result<usize, ()>)
    ensures
        final(file).inode == old(file).inode,
        old(file).inode.ty != Type::File ==> r == Err::<usize, ()>(()) && final(dev).contents()
            == old(dev).contents() && final(file).offset == old(file).offset,
        old(file).inode.ty == Type::File ==> ({
            let n = span(
                old(file).inode.metadata.sz as int,
                old(file).offset as int,
                buf@.len() as int,
            );
            let out = write_from(
                old(dev).contents(),
                old(file).inode,
                true,
                old(file).offset as int,
                buf@,
                0,
                n,
                None,
            );
            &&& final(dev).contents() == out.0
            &&& final(file).offset == old(file).offset + out.1
            &&& r == if out.2 is None {
                Ok::<usize, ()>(out.1 as usize)
            } else {
                Err(())
            }
        }),
{
    let ghost d0 = dev.contents();
    let (n, err) = write_chunks(dev, &file.inode, true, file.offset, buf);
    proof {
        if file.inode.ty == Type::File {
            lemma_write_from_count(
                d0,
                file.inode,
                true,
                file.offset as int,
                buf@,
                0,
                span(file.inode.metadata.sz as int, file.offset as int, buf@.len() as int),
                None,
            );
        }
    }
    file.offset = file.offset + n;
    match err {
        None => Ok(n),
        Some(_) => Err(()),
    }
}

/// The kernel's scan of directory `dir` for `name` from entry `j` on, when
/// the directory holds `n` entries: entries are read from the direct blocks
/// only, sixteen to a sector, and any failure is the same error. `None` where
/// the kernel faults: a block number too large for its sector arithmetic, a
/// name length past the inline storage, or a found inode it cannot read.
#[verifier::opaque]
pub open spec fn kscan(d: Seq<u8>, ts: int, dir: INodeInner, name: Seq<u8>, j: int, n: int) -> Option<
    Result<INodeInner, ()>,
>
    decreases 1536 - j,
{
    if j >= 1536 || j < 0 {
        Some(Err(()))
    } else {
        let blk = dir.direct_blocks@[j / 128];
        let sector = blk * 8 + (j % 128) / 16;
        if j % 128 == 0 && blk * 4096 > u32::MAX {
            None
        } else if j % 16 == 0 && !sector_in_range(d, sector) {
            Some(Err(()))
        } else if j >= n {
            Some(Err(()))
        } else {
            let pos = sector * 512 + (j % 16) * 32;
            if d[pos + 4] > 27 {
                None
            } else if d.subrange(pos + 5, pos + 5 + d[pos + 4]) == name {
                match inode_read(d, ts, le_u32(d, pos)) {
                    Ok(x) => Some(Ok(x)),
                    Err(_) => None,
                }
            } else {
                kscan(d, ts, dir, name, j + 1, n)
            }
        }
    }
}

/// Lemma: one step of the kernel's directory scan.
proof fn lemma_kscan_step(d: Seq<u8>, ts: int, dir: INodeInner, name: Seq<u8>, j: int, n: int)
    requires
        0 <= j < 1536,
    ensures
        kscan(d, ts, dir, name, j, n) == ({
            let blk = dir.direct_blocks@[j / 128];
            let sector = blk * 8 + (j % 128) / 16;
            if j % 128 == 0 && blk * 4096 > u32::MAX {
                None
            } else if j % 16 == 0 && !sector_in_range(d, sector) {
                Some(Err(()))
            } else if j >= n {
                Some(Err(()))
            } else {
                let pos = sector * 512 + (j % 16) * 32;
                if d[pos + 4] > 27 {
                    None
                } else if d.subrange(pos + 5, pos + 5 + d[pos + 4]) == name {
                    match inode_read(d, ts, le_u32(d, pos)) {
                        Ok(x) => Some(Ok(x)),
                        Err(_) => None,
                    }
                } else {
                    kscan(d, ts, dir, name, j + 1, n)
                }
            }
        }),
{
    reveal(kscan);
}

/// Lemma: entry `c` of sector `si` of block `bi` is entry `bi * 128 + si *
/// 16 + c` of the directory.
proof fn lemma_entry_index(bi: int, si: int, c: int)
    requires
        0 <= bi,
        0 <= si < 8,
        0 <= c < 16,
    ensures
        (bi * 128 + si * 16 + c) / 128 == bi,
        ((bi * 128 + si * 16 + c) % 128) / 16 == si,
        (bi * 128 + si * 16 + c) % 16 == c,
        (bi * 128 + si * 16 + c) % 128 == si * 16 + c,
{
    assert((bi * 128 + si * 16 + c) / 128 == bi) by (nonlinear_arith)
        requires
            0 <= bi,
            0 <= si < 8,
            0 <= c < 16,
    ;
    assert((bi * 128 + si * 16 + c) % 128 == si * 16 + c) by (nonlinear_arith)
        requires
            0 <= bi,
            0 <= si < 8,
            0 <= c < 16,
    ;
    assert((si * 16 + c) / 16 == si) by (nonlinear_arith)
        requires
            0 <= si < 8,
            0 <= c < 16,
    ;
    assert((bi * 128 + si * 16 + c) % 16 == c) by (nonlinear_arith)
        requires
            0 <= bi,
            0 <= si < 8,
            0 <= c < 16,
    ;
}

/// The kernel's lookup of `name` in directory `dir`.
pub open spec fn klookup(d: Seq<u8>, ts: int, dir: INodeInner, name: Seq<u8>) -> Option<
    Result<INodeInner, ()>,
> {
    if dir.ty != Type::Directory {
        Some(Err(()))
    } else {
        kscan(d, ts, dir, name, 0, dir.metadata.sz as int / 32)
    }
}

/// The kernel's walk of `comps[k..]` from `cur`: `Some(None)` when it meets
/// a regular file before the end, `None` where a lookup fails, which the
/// kernel treats as fatal.
pub open spec fn kwalk(d: Seq<u8>, ts: int, cur: INodeInner, comps: Seq<Seq<u8>>, k: int) -> Option<
    Option<INodeInner>,
>
    decreases comps.len() - k,
{
    if k >= comps.len() {
        Some(Some(cur))
    } else if cur.ty == Type::File {
        Some(None)
    } else {
        match klookup(d, ts, cur, comps[k]) {
            Some(Ok(next)) => kwalk(d, ts, next, comps, k + 1),
            _ => None,
        }
    }
}

/// Reads the record of inode `inum`, which must be readable.
pub fn get_inode<BD: BlockDevice>(dev: &BD, sb: &SuperBlock, inum: u32) -> (r: INodeInner)
    requires
        inode_read(dev.contents(), sb.inode_table_start as int, inum as int) is Ok,
    ensures
        r == inode_read(dev.contents(), sb.inode_table_start as int, inum as int)->Ok_0,
{
    read_inode_record(dev, sb.inode_table_start, inum).unwrap()
}

/// Looks `path`, one component, up in directory `inode`.
pub fn lookup_path<BD: BlockDevice>(dev: &BD, sb: &SuperBlock, inode: &INodeInner, path: &[u8]) -> (r:
    Result<INodeInner, ()>)
    requires
        klookup(dev.contents(), sb.inode_table_start as int, *inode, path@) is Some,
    ensures
        Some(r) == klookup(dev.contents(), sb.inode_table_start as int, *inode, path@),
{
    if inode.ty != Type::Directory {
        return Err(());
    }
    let ghost d = dev.contents();
    let ghost ts = sb.inode_table_start as int;
    let n_dirent_in_node = inode.metadata.sz as usize / 32;
    let mut buf = sector_buffer();
    let mut block_idx: usize = 0;
    while block_idx < 12
        invariant
            block_idx <= 12,
            d == dev.contents(),
            ts == sb.inode_table_start as int,
            buf.len() == 512,
            inode.ty == Type::Directory,
            n_dirent_in_node == inode.metadata.sz / 32,
            kscan(d, ts, *inode, path@, 0, n_dirent_in_node as int) is Some,
            kscan(d, ts, *inode, path@, 0, n_dirent_in_node as int) == kscan(
                d,
                ts,
                *inode,
                path@,
                block_idx * 128,
                n_dirent_in_node as int,
            ),
        decreases 12 - block_idx,
    {
        let block = inode.direct_blocks[block_idx];
        proof {
            lemma_entry_index(block_idx as int, 0, 0);
            lemma_kscan_step(d, ts, *inode, path@, block_idx * 128, n_dirent_in_node as int);
        }
        let mut sector: u32 = block * 4096 / 512;
        let mut sector_idx: usize = 0;
        while sector_idx < 8
            invariant
                block_idx < 12,
                sector_idx <= 8,
                block == inode.direct_blocks@[block_idx as int],
                sector == block * 8 + sector_idx,
                block * 4096 <= u32::MAX,
                d == dev.contents(),
                ts == sb.inode_table_start as int,
                buf.len() == 512,
                inode.ty == Type::Directory,
                n_dirent_in_node == inode.metadata.sz / 32,
                kscan(d, ts, *inode, path@, 0, n_dirent_in_node as int) is Some,
                kscan(d, ts, *inode, path@, 0, n_dirent_in_node as int) == kscan(
                    d,
                    ts,
                    *inode,
                    path@,
                    block_idx * 128 + sector_idx * 16,
                    n_dirent_in_node as int,
                ),
            decreases 8 - sector_idx,
        {
            proof {
                lemma_entry_index(block_idx as int, sector_idx as int, 0);
                lemma_kscan_step(
                    d,
                    ts,
                    *inode,
                    path@,
                    block_idx * 128 + sector_idx * 16,
                    n_dirent_in_node as int,
                );
            }
            match dev.read_sector(sector as u64, &mut buf) {
                Ok(()) => {},
                Err(_) => return Err(()),
            }
            let mut cur_dir_idx: usize = 0;
            while cur_dir_idx < 16
                invariant
                    block_idx < 12,
                    sector_idx < 8,
                    cur_dir_idx <= 16,
                    block == inode.direct_blocks@[block_idx as int],
                    sector == block * 8 + sector_idx,
                    block * 4096 <= u32::MAX,
                    sector_in_range(d, sector as int),
                    buf@ == d.subrange(sector * 512, sector * 512 + 512),
                    d == dev.contents(),
                    ts == sb.inode_table_start as int,
                    buf.len() == 512,
                    inode.ty == Type::Directory,
                    n_dirent_in_node == inode.metadata.sz / 32,
                    kscan(d, ts, *inode, path@, 0, n_dirent_in_node as int) is Some,
                    kscan(d, ts, *inode, path@, 0, n_dirent_in_node as int) == kscan(
                        d,
                        ts,
                        *inode,
                        path@,
                        block_idx * 128 + sector_idx * 16 + cur_dir_idx,
                        n_dirent_in_node as int,
                    ),
                decreases 16 - cur_dir_idx,
            {
                let j = block_idx * 128 + sector_idx * 16 + cur_dir_idx;
                proof {
                    lemma_entry_index(block_idx as int, sector_idx as int, cur_dir_idx as int);
                    lemma_kscan_step(d, ts, *inode, path@, j as int, n_dirent_in_node as int);
                }
                if j >= n_dirent_in_node {
                    return Err(());
                }
                let dirent = decode_dirent(&buf, 32 * cur_dir_idx);
                let ghost pos = sector * 512 + cur_dir_idx * 32;
                proof {
                    lemma_dirent_window(d, sector * 512, 32 * cur_dir_idx as int, dirent);
                }
                let name_len = dirent.name_len as usize;
                assert(d.subrange(pos + 5, pos + 5 + d[pos + 4]) =~= dirent.name@.subrange(0, name_len as int));
                if names_equal(&dirent.name, name_len, path) {
                    return Ok(get_inode(dev, sb, dirent.inum));
                }
                cur_dir_idx += 1;
            }
            sector += 1;
            sector_idx += 1;
        }
        block_idx += 1;
    }
    proof {
        reveal(kscan);
        assert(kscan(d, ts, *inode, path@, 1536, n_dirent_in_node as int) == Some(Err::<INodeInner, ()>(())));
    }
    Err(())
}

/// Opens the absolute `path` from the root inode, inode 1; walking through a
/// regular file gives `None`.
pub fn open<BD: BlockDevice>(dev: &BD, sb: &SuperBlock, path: &[u8]) -> (r: Option<File>)
    requires
        inode_read(dev.contents(), sb.inode_table_start as int, 1) is Ok,
        kwalk(
            dev.contents(),
            sb.inode_table_start as int,
            inode_read(dev.contents(), sb.inode_table_start as int, 1)->Ok_0,
            path_components(path@),
            0,
        ) is Some,
    ensures
        r == match kwalk(
            dev.contents(),
            sb.inode_table_start as int,
            inode_read(dev.contents(), sb.inode_table_start as int, 1)->Ok_0,
            path_components(path@),
            0,
        )->0 {
            Some(x) => Some(File { inode: x, offset: 0 }),
            None => None,
        },
{
    let ghost d = dev.contents();
    let ghost ts = sb.inode_table_start as int;
    let root = get_inode(dev, sb, 1);
    let comps = split_path(path);
    let ghost cs = path_components(path@);
    let mut current_inode = root;
    let mut k: usize = 0;
    while k < comps.len()
        invariant
            k <= comps.len(),
            cs == path_components(path@),
            comps.len() == cs.len(),
            forall|t: int| 0 <= t < comps.len() ==> #[trigger] comps@[t]@ == cs[t],
            d == dev.contents(),
            ts == sb.inode_table_start as int,
            kwalk(d, ts, root, cs, 0) is Some,
            kwalk(d, ts, root, cs, 0) == kwalk(d, ts, current_inode, cs, k as int),
            root == inode_read(d, ts, 1)->Ok_0,
        decreases comps.len() - k,
    {
        if current_inode.ty == Type::File {
            return None;
        }
        assert(comps@[k as int]@ == cs[k as int]);
        current_inode = match lookup_path(dev, sb, &current_inode, comps[k].as_slice()) {
            Ok(next) => next,
            Err(_) => {
                assert(false);
                return None;
            },
        };
        k += 1;
    }
    Some(File { inode: current_inode, offset: 0 })
}

} // verus!
