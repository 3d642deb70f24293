//! What the file operations of VSFS promise together: a read gives back
//! what a write put there, a record written to the inode table reads back,
//! and freeing an allocated bitmap bit restores the bitmap.
use vstd::prelude::*;
use crate::vsfs::{
    INode, INodeInner, SuperBlock, Type, VfsError, alloc_outcome, bit_byte, bit_mask, bit_set,
    bitmap_scan, bitmap_sectors, block_of, create_file_outcome, created_on_disk, dir_lookup,
    dir_scan, file_block, free_outcome, free_result, freeable, grown_dir, inode_at, inode_pos, inode_read,
    lemma_inode_at_is_from_bytes, lookup_outcome, overwrite, read_from, same_outside,
    sector_in_range, sector_of, set_bit, span, step_len, with_dir_block, write_from, le_u32,
};

verus! {

/// Block holding file byte `o`.
pub open spec fn block_num(d: Seq<u8>, i: INodeInner, f: bool, o: int) -> int {
    file_block(d, i, f, o / 4096)->Ok_0 as int
}

/// Device byte holding file byte `o`.
pub open spec fn phys(d: Seq<u8>, i: INodeInner, f: bool, o: int) -> int {
    block_num(d, i, f, o) * 4096 + o % 4096
}

/// File byte `o` has a block, and its sector is on the device.
pub open spec fn byte_ok(d: Seq<u8>, i: INodeInner, f: bool, o: int) -> bool {
    &&& file_block(d, i, f, o / 4096) is Ok
    &&& sector_in_range(d, sector_of(block_num(d, i, f, o), o))
}

/// The file bytes `[off, off + n)` all have blocks on the device, distinct
/// logical blocks lie in distinct device blocks, and, where the range
/// reaches past the direct blocks, none of them is the indirect block.
pub open spec fn private_range(d: Seq<u8>, i: INodeInner, f: bool, off: int, n: int) -> bool {
    &&& forall|o: int| off <= o < off + n ==> #[trigger] byte_ok(d, i, f, o)
    &&& forall|o1: int, o2: int|
        #![trigger block_num(d, i, f, o1), block_num(d, i, f, o2)]
        off <= o1 < off + n && off <= o2 < off + n && o1 / 4096 != o2 / 4096 ==> block_num(
            d,
            i,
            f,
            o1,
        ) != block_num(d, i, f, o2)
    &&& off + n > 12 * 4096 ==> forall|o: int|
        off <= o < off + n ==> #[trigger] block_num(d, i, f, o) != i.indirect_block
}

/// Some file byte of `[cur, cur + n)` lies at device byte `p`.
pub open spec fn written(d: Seq<u8>, i: INodeInner, f: bool, cur: int, n: int, p: int) -> bool {
    exists|o: int| cur <= o < cur + n && #[trigger] phys(d, i, f, o) == p
}

proof fn lemma_step_bytes(b: int, cur: int, rem: int, t: int)
    requires
        cur >= 0,
        b >= 0,
        rem > 0,
        0 <= t < step_len(cur, rem),
    ensures
        1 <= step_len(cur, rem) <= rem,
        (cur + t) / 4096 == cur / 4096,
        (cur + t) % 4096 == cur % 4096 + t,
        sector_of(b, cur + t) == sector_of(b, cur),
        sector_of(b, cur) * 512 + (cur % 4096) % 512 == b * 4096 + cur % 4096,
        (cur % 4096) % 512 + step_len(cur, rem) <= 512,
{
    let so = (cur % 4096) % 512;
    assert(cur % 4096 == (cur % 4096) / 512 * 512 + so);
    assert((cur % 4096) + t < 4096);
    assert((cur + t) / 4096 == cur / 4096 && (cur + t) % 4096 == cur % 4096 + t) by {
        assert(cur == (cur / 4096) * 4096 + cur % 4096);
    }
    assert(((cur % 4096) + t) / 512 == (cur % 4096) / 512);
}

/// Lemma: where a block is not the indirect block, writing into it leaves
/// every block pointer of the file as it was.
proof fn lemma_lookup_kept(d: Seq<u8>, i: INodeInner, f: bool, lb: int, b: int, at: int, chunk: Seq<u8>)
    requires
        lb >= 0,
        b >= 0,
        b * 4096 <= at,
        at + chunk.len() <= b * 4096 + 4096,
        at + chunk.len() <= d.len(),
        lb >= 12 ==> b != i.indirect_block,
    ensures
        file_block(overwrite(d, at, chunk), i, f, lb) == file_block(d, i, f, lb),
{
    let d2 = overwrite(d, at, chunk);
    assert(d2.len() == d.len());
    if lb >= 12 && !(lb - 12 >= 1024 || i.indirect_block == 0) {
        let p = i.indirect_block * 4096 + (lb - 12) * 4;
        if sector_in_range(d, i.indirect_block * 8 + (lb - 12) * 4 / 512) {
            assert(d2[p] == d[p]);
            assert(d2[p + 1] == d[p + 1]);
            assert(d2[p + 2] == d[p + 2]);
            assert(d2[p + 3] == d[p + 3]);
            assert(le_u32(d2, p) == le_u32(d, p));
        }
    }
}

/// What a read is, stated over the file's bytes: over a range whose bytes
/// all have blocks on the device, a read answers the device bytes that hold
/// the file bytes, in order.
pub proof fn lemma_read_chars(d: Seq<u8>, i: INodeInner, f: bool, cur: int, done: Seq<u8>, rem: int)
    requires
        cur >= 0,
        rem >= 0,
        forall|o: int| cur <= o < cur + rem ==> #[trigger] byte_ok(d, i, f, o),
    ensures
        read_from(d, i, f, cur, done, rem) == (
            done + Seq::new(rem as nat, |t: int| d[phys(d, i, f, cur + t)]),
            None::<VfsError>,
        ),
    decreases rem,
{
    let tail = Seq::new(rem as nat, |t: int| d[phys(d, i, f, cur + t)]);
    if rem == 0 {
        assert(done + tail =~= done);
    } else {
        assert(byte_ok(d, i, f, cur));
        let b = file_block(d, i, f, cur / 4096)->Ok_0 as int;
        let c = step_len(cur, rem);
        lemma_step_bytes(b, cur, rem, 0);
        let sector = sector_of(b, cur);
        let at = sector * 512 + (cur % 4096) % 512;
        let chunk = d.subrange(at, at + c);
        assert forall|o: int| cur + c <= o < cur + c + (rem - c) implies #[trigger] byte_ok(
            d,
            i,
            f,
            o,
        ) by {
            assert(byte_ok(d, i, f, o));
        }
        lemma_read_chars(d, i, f, cur + c, done + chunk, rem - c);
        let rest = Seq::new((rem - c) as nat, |t: int| d[phys(d, i, f, cur + c + t)]);
        assert forall|t: int| 0 <= t < c implies chunk[t] == d[phys(d, i, f, cur + t)] by {
            lemma_step_bytes(b, cur, rem, t);
        }
        assert(chunk + rest =~= tail);
        assert(done + chunk + rest =~= done + tail);
    }
}

/// What a write is, stated over the file's bytes: over a private range, a
/// write completes, keeps every block pointer it could change, puts each
/// data byte where its file byte lives and leaves every other device byte
/// alone.
#[verifier::rlimit(60)]
#[verifier::spinoff_prover]
pub proof fn lemma_write_chars(
    d: Seq<u8>,
    i: INodeInner,
    f: bool,
    cur: int,
    data: Seq<u8>,
    done: int,
    rem: int,
    mapped: Option<(int, u32)>,
)
    requires
        cur >= 0,
        done >= 0,
        rem >= 0,
        done + rem <= data.len(),
        private_range(d, i, f, cur, rem),
        mapped is Some ==> file_block(d, i, f, (mapped->0).0) == Ok::<u32, VfsError>((mapped->0).1),
    ensures
        ({
            let w = write_from(d, i, f, cur, data, done, rem, mapped);
            &&& w.1 == done + rem
            &&& w.2 is None
            &&& w.0.len() == d.len()
            &&& forall|lb: int|
                lb >= 0 && (lb < 12 || cur + rem > 12 * 4096) ==> #[trigger] file_block(w.0, i, f, lb)
                    == file_block(d, i, f, lb)
            &&& forall|o: int| cur <= o < cur + rem ==> w.0[#[trigger] phys(d, i, f, o)] == data[done
                + o - cur]
            &&& forall|p: int| 0 <= p < d.len() && !written(d, i, f, cur, rem, p) ==> #[trigger] w.0[p]
                == d[p]
        }),
    decreases rem,
{
    if rem == 0 {
        return;
    }
    let lb = cur / 4096;
    assert(byte_ok(d, i, f, cur));
    let b32 = file_block(d, i, f, lb)->Ok_0;
    let b = b32 as int;
    let c = step_len(cur, rem);
    lemma_step_bytes(b, cur, rem, 0);
    let sector = sector_of(b, cur);
    let at = sector * 512 + (cur % 4096) % 512;
    let chunk = data.subrange(done, done + c);
    let d2 = overwrite(d, at, chunk);
    assert(block_num(d, i, f, cur) == b);
    assert(cur + rem > 12 * 4096 ==> b != i.indirect_block) by {
        if cur + rem > 12 * 4096 {
            assert(block_num(d, i, f, cur) != i.indirect_block);
        }
    }
    assert(sector_in_range(d, sector));
    assert(at + c <= d.len());
    assert forall|lb2: int| lb2 >= 0 && (lb2 < 12 || cur + rem > 12 * 4096) implies #[trigger] file_block(
        d2,
        i,
        f,
        lb2,
    ) == file_block(d, i, f, lb2) by {
        lemma_lookup_kept(d, i, f, lb2, b, at, chunk);
    }
    assert forall|o: int| cur + c <= o < cur + c + (rem - c) implies #[trigger] byte_ok(d2, i, f, o)
        && block_num(d2, i, f, o) == block_num(d, i, f, o) by {
        assert(byte_ok(d, i, f, o));
        assert(o / 4096 >= 12 ==> cur + rem > 12 * 4096);
        lemma_lookup_kept(d, i, f, o / 4096, b, at, chunk);
    }
    assert(private_range(d2, i, f, cur + c, rem - c)) by {
        assert forall|o1: int, o2: int|
            #![trigger block_num(d2, i, f, o1), block_num(d2, i, f, o2)]
            cur + c <= o1 < cur + rem && cur + c <= o2 < cur + rem && o1 / 4096 != o2 / 4096 implies block_num(
            d2,
            i,
            f,
            o1,
        ) != block_num(d2, i, f, o2) by {
            assert(block_num(d2, i, f, o1) == block_num(d, i, f, o1));
            assert(block_num(d2, i, f, o2) == block_num(d, i, f, o2));
            assert(block_num(d, i, f, o1) != block_num(d, i, f, o2));
        }
        if cur + c + (rem - c) > 12 * 4096 {
            assert forall|o: int| cur + c <= o < cur + c + (rem - c) implies #[trigger] block_num(
                d2,
                i,
                f,
                o,
            ) != i.indirect_block by {
                assert(block_num(d2, i, f, o) == block_num(d, i, f, o));
                assert(block_num(d, i, f, o) != i.indirect_block);
            }
        }
    }
    lemma_lookup_kept(d, i, f, lb, b, at, chunk);
    lemma_write_chars(d2, i, f, cur + c, data, done + c, rem - c, Some((lb, b32)));
    let w = write_from(d2, i, f, cur + c, data, done + c, rem - c, Some((lb, b32)));
    assert(write_from(d, i, f, cur, data, done, rem, mapped) == w);
    // Bytes of this step survive the later steps.
    assert forall|o: int| cur <= o < cur + rem implies w.0[#[trigger] phys(d, i, f, o)] == data[done + o
        - cur] by {
        if o < cur + c {
            let t = o - cur;
            lemma_step_bytes(b, cur, rem, t);
            assert(phys(d, i, f, o) == at + t);
            assert(d2[at + t] == chunk[t]);
            if written(d2, i, f, cur + c, rem - c, at + t) {
                let o2 = choose|o2: int| cur + c <= o2 < cur + c + (rem - c) && #[trigger] phys(
                    d2,
                    i,
                    f,
                    o2,
                ) == at + t;
                assert(byte_ok(d, i, f, o2));
                assert(block_num(d2, i, f, o2) == block_num(d, i, f, o2));
                if o2 / 4096 == lb {
                    assert(block_num(d, i, f, o2) == b);
                    assert(o2 % 4096 == cur % 4096 + t);
                    assert(o2 == o2 / 4096 * 4096 + o2 % 4096);
                    assert(cur == cur / 4096 * 4096 + cur % 4096);
                    assert(false);
                } else {
                    assert(block_num(d, i, f, o2) != block_num(d, i, f, cur));
                    assert(false);
                }
            }
        } else {
            assert(byte_ok(d, i, f, o));
            assert(block_num(d2, i, f, o) == block_num(d, i, f, o));
            assert(phys(d2, i, f, o) == phys(d, i, f, o));
        }
    }
    assert forall|p: int| 0 <= p < d.len() && !written(d, i, f, cur, rem, p) implies #[trigger] w.0[p]
        == d[p] by {
        if written(d2, i, f, cur + c, rem - c, p) {
            let o2 = choose|o2: int| cur + c <= o2 < cur + c + (rem - c) && #[trigger] phys(d2, i, f, o2)
                == p;
            assert(byte_ok(d, i, f, o2));
            assert(block_num(d2, i, f, o2) == block_num(d, i, f, o2));
            assert(phys(d, i, f, o2) == p);
            assert(written(d, i, f, cur, rem, p));
        }
        if at <= p < at + c {
            let t = p - at;
            lemma_step_bytes(b, cur, rem, t);
            assert(phys(d, i, f, cur + t) == p);
            assert(written(d, i, f, cur, rem, p));
        }
    }
}

/// Law: over a range of a file whose bytes all have blocks on the device,
/// in distinct device blocks that are not the indirect block, a write of
/// `n` bytes completes, and reading the same `n` bytes back gives exactly
/// the bytes written.
pub proof fn lemma_read_after_write(d: Seq<u8>, i: INodeInner, f: bool, off: int, data: Seq<u8>, n: int)
    requires
        off >= 0,
        0 <= n <= data.len(),
        private_range(d, i, f, off, n),
    ensures
        write_from(d, i, f, off, data, 0, n, None).1 == n,
        write_from(d, i, f, off, data, 0, n, None).2 is None,
        read_from(write_from(d, i, f, off, data, 0, n, None).0, i, f, off, seq![], n) == (
            data.subrange(0, n),
            None::<VfsError>,
        ),
{
    lemma_write_chars(d, i, f, off, data, 0, n, None);
    let w = write_from(d, i, f, off, data, 0, n, None);
    assert forall|o: int| off <= o < off + n implies #[trigger] byte_ok(w.0, i, f, o) && block_num(
        w.0,
        i,
        f,
        o,
    ) == block_num(d, i, f, o) by {
        assert(byte_ok(d, i, f, o));
        assert(o / 4096 >= 12 ==> off + n > 12 * 4096);
        assert(file_block(w.0, i, f, o / 4096) == file_block(d, i, f, o / 4096));
    }
    lemma_read_chars(w.0, i, f, off, seq![], n);
    assert forall|t: int| 0 <= t < n implies w.0[phys(w.0, i, f, off + t)] == data[t] by {
        assert(byte_ok(d, i, f, off + t));
        assert(block_num(w.0, i, f, off + t) == block_num(d, i, f, off + t));
        assert(w.0[phys(d, i, f, off + t)] == data[0 + (off + t) - off]);
    }
    assert(seq![] + Seq::new(n as nat, |t: int| w.0[phys(w.0, i, f, off + t)]) =~= data.subrange(0, n));
}

/// Law: a write over a range as in [`lemma_read_after_write`] leaves every
/// other file byte reading back as before, when that byte has a block on the
/// device that no byte of the range shares unless it is the same logical
/// block, and, unless the range reaches past the direct blocks, it is itself
/// in a direct block (an indirect lookup could read a block the range wrote).
pub proof fn lemma_write_keeps_other_bytes(
    d: Seq<u8>,
    i: INodeInner,
    f: bool,
    off: int,
    data: Seq<u8>,
    n: int,
    o: int,
)
    requires
        off >= 0,
        0 <= n <= data.len(),
        private_range(d, i, f, off, n),
        o >= 0,
        !(off <= o < off + n),
        byte_ok(d, i, f, o),
        o / 4096 < 12 || off + n > 12 * 4096,
        forall|o2: int|
            off <= o2 < off + n ==> o2 / 4096 == o / 4096 || #[trigger] block_num(d, i, f, o2) != block_num(
                d,
                i,
                f,
                o,
            ),
    ensures
        read_from(write_from(d, i, f, off, data, 0, n, None).0, i, f, o, seq![], 1) == read_from(
            d,
            i,
            f,
            o,
            seq![],
            1,
        ),
{
    lemma_write_chars(d, i, f, off, data, 0, n, None);
    let w = write_from(d, i, f, off, data, 0, n, None).0;
    assert(file_block(w, i, f, o / 4096) == file_block(d, i, f, o / 4096));
    assert(byte_ok(w, i, f, o));
    let p = phys(d, i, f, o);
    assert(!written(d, i, f, off, n, p)) by {
        if written(d, i, f, off, n, p) {
            let o2 = choose|o2: int| off <= o2 < off + n && #[trigger] phys(d, i, f, o2) == p;
            let b1 = block_num(d, i, f, o2);
            let b2 = block_num(d, i, f, o);
            assert(b1 >= 0 && b2 >= 0);
            assert(b1 == b2 && o2 % 4096 == o % 4096) by (nonlinear_arith)
                requires
                    b1 * 4096 + o2 % 4096 == b2 * 4096 + o % 4096,
                    0 <= o2 % 4096 < 4096,
                    0 <= o % 4096 < 4096,
            ;
            assert(o2 / 4096 == o / 4096);
            assert(o2 == o) by {
                assert(o2 == o2 / 4096 * 4096 + o2 % 4096);
                assert(o == o / 4096 * 4096 + o % 4096);
            }
        }
    }
    assert(0 <= p < d.len()) by {
        lemma_step_bytes(block_num(d, i, f, o), o, 1, 0);
    }
    lemma_read_chars(w, i, f, o, seq![], 1);
    lemma_read_chars(d, i, f, o, seq![], 1);
    assert(phys(w, i, f, o) == p);
    assert(w[p] == d[p]);
    assert(Seq::new(1nat, |t: int| w[phys(w, i, f, o + t)]) =~= Seq::new(1nat, |t: int| d[phys(d, i, f, o + t)]));
}

/// Law: what [`INode::write`](crate::vsfs::INode::write) and then
/// [`INode::read`](crate::vsfs::INode::read) do over a range of a file whose
/// blocks are private as [`lemma_read_after_write`] asks: writing `data` at
/// `offset` writes every byte of its span within the file, and reading that
/// many bytes at `offset` afterwards answers exactly those bytes.
pub proof fn lemma_inode_write_then_read(d: Seq<u8>, inode: INode, offset: int, data: Seq<u8>)
    requires
        inode.inner.ty == Type::File,
        offset >= 0,
        private_range(
            d,
            inode.inner,
            false,
            offset,
            span(inode.inner.metadata.sz as int, offset, data.len() as int),
        ),
    ensures
        ({
            let n = span(inode.inner.metadata.sz as int, offset, data.len() as int);
            let w = write_from(d, inode.inner, false, offset, data, 0, n, None);
            &&& w.1 == n
            &&& w.2 is None
            &&& span(inode.inner.metadata.sz as int, offset, n) == n
            &&& read_from(w.0, inode.inner, false, offset, seq![], n) == (
                data.subrange(0, n),
                None::<VfsError>,
            )
        }),
{
    let n = span(inode.inner.metadata.sz as int, offset, data.len() as int);
    lemma_read_after_write(d, inode.inner, false, offset, data, n);
}

/// Law: how a file's logical block `lb` is found on a device of contents
/// `d`. The first 12 come from the inode's direct pointers; the next 1024
/// from the indirect block, read as 4-byte little-endian pointers, entry
/// `lb - 12` at byte `4 * (lb - 12)` of that block (when the block is on the
/// device; a pointer whose sector is not on the device is an I/O error); a
/// zero pointer, a missing indirect block or a block past these is
/// malformed.
pub proof fn lemma_block_of_law(d: Seq<u8>, i: INodeInner, lb: int)
    requires
        0 <= lb,
    ensures
        lb < 12 && i.direct_blocks@[lb] != 0 ==> block_of(d, i, lb) == Ok::<u32, VfsError>(i.direct_blocks@[lb]),
        lb < 12 && i.direct_blocks@[lb] == 0 ==> block_of(d, i, lb) == Err::<u32, VfsError>(VfsError::Fs),
        lb >= 12 + 1024 ==> block_of(d, i, lb) == Err::<u32, VfsError>(VfsError::Fs),
        lb >= 12 && i.indirect_block == 0 ==> block_of(d, i, lb) == Err::<u32, VfsError>(VfsError::Fs),
        12 <= lb < 12 + 1024 && i.indirect_block != 0 && (i.indirect_block + 1) * 4096 <= d.len() ==> ({
            let p = i.indirect_block * 4096 + 4 * (lb - 12);
            let v = d[p] + 256 * d[p + 1] + 65536 * d[p + 2] + 16777216 * d[p + 3];
            &&& v != 0 ==> block_of(d, i, lb) == Ok::<u32, VfsError>(v as u32)
            &&& v == 0 ==> block_of(d, i, lb) == Err::<u32, VfsError>(VfsError::Fs)
        }),
        12 <= lb < 12 + 1024 && i.indirect_block != 0 && (i.indirect_block * 8 + (4 * (lb - 12)) / 512 + 1)
            * 512 > d.len() ==> block_of(d, i, lb) == Err::<u32, VfsError>(VfsError::DeviceIO),
{
    if 12 <= lb < 12 + 1024 && i.indirect_block != 0 && (i.indirect_block + 1) * 4096 <= d.len() {
        let k = lb - 12;
        let ib = i.indirect_block as int;
        assert(k * 4 / 512 < 8);
        assert((ib * 8 + k * 4 / 512 + 1) * 512 <= (ib + 1) * 4096) by (nonlinear_arith)
            requires
                0 <= k * 4 / 512 < 8,
        ;
        assert(sector_in_range(d, ib * 8 + k * 4 / 512));
    }
}

/// Law: an inode record written into the table reads back as written.
pub proof fn lemma_inode_round_trip(d: Seq<u8>, ts: int, inum: int, x: INodeInner)
    requires
        sector_in_range(d, inode_pos(ts, inum) / 512),
        inode_at(d, inode_pos(ts, inum), x),
    ensures
        inode_read(d, ts, inum) == Ok::<INodeInner, VfsError>(x),
{
    lemma_inode_at_is_from_bytes(d, inode_pos(ts, inum), x);
}

proof fn lemma_mask_bits(x: u8, k: u8)
    requires
        k < 8,
        x & (1u8 << k) == 0,
    ensures
        (x | (1u8 << k)) & (1u8 << k) != 0,
        (x | (1u8 << k)) & !(1u8 << k) == x,
{
    assert((x | (1u8 << k)) & (1u8 << k) != 0 && (x | (1u8 << k)) & !(1u8 << k) == x) by (bit_vector)
        requires
            k < 8,
            x & (1u8 << k) == 0,
    ;
}

/// Law: freeing a bit that an allocation has just set gives back the
/// bitmap as it was before the allocation.
pub proof fn lemma_free_undoes_allocate(d: Seq<u8>, bb: int, b: int)
    requires
        bb >= 0,
        b >= 0,
        b / 4096 < 8,
        sector_in_range(d, bb * 8 + b / 4096),
        !bit_set(d, bb, b),
    ensures
        bit_set(set_bit(d, bb, b), bb, b),
        freeable(set_bit(d, bb, b), bb, b),
        free_outcome(set_bit(d, bb, b), bb, b) == d,
{
    let p = bit_byte(bb, b);
    assert(0 <= p < d.len()) by {
        assert(p == (bb * 8 + b / 4096) * 512 + (b % 4096) / 8) by {
            assert(b == b / 4096 * 4096 + b % 4096);
            assert(b / 8 == b / 4096 * 512 + (b % 4096) / 8);
        }
    }
    lemma_mask_bits(d[p], (b % 8) as u8);
    let d1 = set_bit(d, bb, b);
    assert(d1[p] == d[p] | bit_mask(b % 8));
    assert(free_outcome(d1, bb, b) =~= d);
}

/// Law: a bit that an allocation hands out and that is then freed is the
/// bit the next allocation over the same range hands out again, on a bitmap
/// back as it was.
pub proof fn lemma_allocate_free_allocate(d: Seq<u8>, bb: int, start: int, end: int)
    requires
        bb >= 0,
        start >= 0,
        alloc_outcome(d, bb, start, end) is Ok,
    ensures
        ({
            let b = alloc_outcome(d, bb, start, end)->Ok_0;
            let d2 = free_outcome(set_bit(d, bb, b), bb, b);
            &&& free_result(set_bit(d, bb, b), bb, b) == Ok::<(), VfsError>(())
            &&& d2 == d
            &&& alloc_outcome(d2, bb, start, end) == Ok::<int, VfsError>(b)
        }),
{
    let b = alloc_outcome(d, bb, start, end)->Ok_0;
    lemma_alloc_ok(d, bb, start, end, b);
    lemma_free_undoes_allocate(d, bb, b);
}

proof fn lemma_clear_bits(x: u8, kb: u8, kk: u8)
    requires
        kb < 8,
        kk < 8,
    ensures
        kk != kb ==> (((x & !(1u8 << kb)) & (1u8 << kk)) != 0) == ((x & (1u8 << kk)) != 0),
        (x & !(1u8 << kb)) & (1u8 << kb) == 0,
        x & (1u8 << kb) != 0 ==> ((x & !(1u8 << kb)) | (1u8 << kb)) == x,
{
    assert(kk != kb ==> (((x & !(1u8 << kb)) & (1u8 << kk)) != 0) == ((x & (1u8 << kk)) != 0)) by (bit_vector)
        requires
            kb < 8,
            kk < 8,
    ;
    assert((x & !(1u8 << kb)) & (1u8 << kb) == 0) by (bit_vector)
        requires
            kb < 8,
    ;
    assert(x & (1u8 << kb) != 0 ==> ((x & !(1u8 << kb)) | (1u8 << kb)) == x) by (bit_vector)
        requires
            kb < 8,
    ;
}

proof fn lemma_scan_finds(d: Seq<u8>, bb: int, k: int, e: int, b: int)
    requires
        k <= b < e,
        forall|j: int| k <= j < b ==> sector_in_range(d, bb * 8 + j / 4096) && #[trigger] bit_set(d, bb, j),
        sector_in_range(d, bb * 8 + b / 4096),
        !bit_set(d, bb, b),
    ensures
        bitmap_scan(d, bb, k, e) == Ok::<int, VfsError>(b),
    decreases b - k,
{
    if k < b {
        assert(bit_set(d, bb, k));
        assert(sector_in_range(d, bb * 8 + k / 4096));
        assert forall|j: int| k + 1 <= j < b implies sector_in_range(d, bb * 8 + j / 4096) && #[trigger] bit_set(d, bb, j) by {
            assert(bit_set(d, bb, j));
        }
        lemma_scan_finds(d, bb, k + 1, e, b);
    }
}

/// Law: freeing a bit that is free is refused and changes nothing; freeing
/// one that is taken succeeds and clears exactly that bit, and then an
/// allocation over a range of the same bitmap whose bits below it are all
/// taken hands that bit out again and gives back the bitmap as it was.
pub proof fn lemma_free_then_allocate(d: Seq<u8>, bb: int, b: int, s: int, e: int)
    requires
        bb >= 0,
        0 <= s <= b < e,
        bitmap_sectors(e) <= 8,
        sector_in_range(d, bb * 8 + b / 4096),
        forall|k: int| s <= k < b ==> sector_in_range(d, bb * 8 + k / 4096) && #[trigger] bit_set(d, bb, k),
    ensures
        !bit_set(d, bb, b) ==> free_result(d, bb, b) == Err::<(), VfsError>(VfsError::Fs)
            && free_outcome(d, bb, b) == d,
        bit_set(d, bb, b) ==> {
            let d1 = free_outcome(d, bb, b);
            &&& free_result(d, bb, b) == Ok::<(), VfsError>(())
            &&& d1 == d.update(bit_byte(bb, b), d[bit_byte(bb, b)] & !bit_mask(b % 8))
            &&& alloc_outcome(d1, bb, s, e) == Ok::<int, VfsError>(b)
            &&& set_bit(d1, bb, b) == d
        },
{
    assert(e <= 32768);
    assert(b / 4096 < 8);
    let q = bit_byte(bb, b);
    assert(0 <= q < d.len()) by {
        assert(q == (bb * 8 + b / 4096) * 512 + (b % 4096) / 8) by {
            assert(b == b / 4096 * 4096 + b % 4096);
            assert(b / 8 == b / 4096 * 512 + (b % 4096) / 8);
        }
    }
    if bit_set(d, bb, b) {
        let d1 = free_outcome(d, bb, b);
        lemma_clear_bits(d[q], (b % 8) as u8, 0);
        assert(!bit_set(d1, bb, b));
        assert forall|k: int| s <= k < b implies sector_in_range(d1, bb * 8 + k / 4096) && #[trigger] bit_set(d1, bb, k) by {
            assert(bit_set(d, bb, k));
            if bit_byte(bb, k) == q {
                assert(k % 8 != b % 8) by {
                    assert(k / 8 == b / 8);
                }
                lemma_clear_bits(d[q], (b % 8) as u8, (k % 8) as u8);
            }
        }
        lemma_scan_finds(d1, bb, s, e, b);
        lemma_clear_bits(d[q], (b % 8) as u8, 0);
        assert(set_bit(d1, bb, b) =~= d);
    }
}

/// Clearing bit `b` in `y`, a copy of `x` with that bit set that may differ
/// from it inside `[p, p + n)`, gives back `x` outside that window.
pub(crate) proof fn lemma_free_after_set(x: Seq<u8>, y: Seq<u8>, bb: int, b: int, p: int, n: int)
    requires
        bb >= 0,
        b >= 0,
        b / 4096 < 8,
        sector_in_range(x, bb * 8 + b / 4096),
        !bit_set(x, bb, b),
        same_outside(y, set_bit(x, bb, b), p, n),
    ensures
        same_outside(free_outcome(y, bb, b), x, p, n),
{
    let q = bit_byte(bb, b);
    assert(0 <= q < x.len()) by {
        assert(q == (bb * 8 + b / 4096) * 512 + (b % 4096) / 8) by {
            assert(b == b / 4096 * 4096 + b % 4096);
            assert(b / 8 == b / 4096 * 512 + (b % 4096) / 8);
        }
    }
    lemma_mask_bits(x[q], (b % 8) as u8);
    let sx = set_bit(x, bb, b);
    let f = free_outcome(y, bb, b);
    assert(sx[q] == x[q] | bit_mask(b % 8));
    if !(p <= q < p + n) {
        assert(y[q] == sx[q]);
        assert(freeable(y, bb, b));
        assert(f[q] == x[q]);
    }
    assert forall|j: int| 0 <= j < f.len() && (j < p || j >= p + n) implies #[trigger] f[j] == x[j] by {
        if j != q {
            assert(f[j] == y[j]);
            assert(y[j] == sx[j]);
        }
    }
}

/// Directory entry `j` of `dir1` on `d1` is where entry `j` of `dir0` is on
/// `d0`, and holds the same bytes.
pub open spec fn entry_kept(d0: Seq<u8>, dir0: INodeInner, d1: Seq<u8>, dir1: INodeInner, j: int) -> bool {
    let lb = j * 32 / 4096;
    &&& block_of(d1, dir1, lb) == block_of(d0, dir0, lb)
    &&& block_of(d0, dir0, lb) is Ok ==> forall|t: int|
        0 <= t < 32 && 0 <= entry_pos(d0, dir0, j) + t < d0.len() ==> #[trigger] d1[entry_pos(d0, dir0, j) + t]
            == d0[entry_pos(d0, dir0, j) + t]
}

/// Where directory entry `j` of `dir` lies on `d`.
pub open spec fn entry_pos(d: Seq<u8>, dir: INodeInner, j: int) -> int {
    block_of(d, dir, j * 32 / 4096)->Ok_0 * 4096 + (j * 32) % 4096
}

/// Entry `j` of a block lies inside one sector of it.
proof fn lemma_entry_in_sector(b: int, j: int)
    requires
        0 <= b,
        0 <= j,
    ensures
        b * 4096 + (j * 32) % 4096 + 32 <= (b * 8 + ((j * 32) % 4096) / 512 + 1) * 512,
        b * 4096 + (j * 32) % 4096 >= (b * 8 + ((j * 32) % 4096) / 512) * 512,
{
    let o = (j * 32) % 4096;
    assert(o % 32 == 0) by (nonlinear_arith)
        requires
            o == (j * 32) % 4096,
            0 <= j,
    ;
    assert(o % 512 <= 480) by (nonlinear_arith)
        requires
            o % 32 == 0,
            0 <= o < 4096,
    ;
    assert(o == (o / 512) * 512 + o % 512) by (nonlinear_arith)
        requires
            0 <= o,
    ;
}

/// A scan over entries that are all kept finds what it found before.
proof fn lemma_scan_kept(d0: Seq<u8>, dir0: INodeInner, d1: Seq<u8>, dir1: INodeInner, name: Seq<u8>, idx: int, n: int)
    requires
        d0.len() == d1.len(),
        0 <= idx,
        forall|j: int| idx <= j < n ==> #[trigger] entry_kept(d0, dir0, d1, dir1, j),
    ensures
        dir_scan(d1, dir1, name, idx, n) == dir_scan(d0, dir0, name, idx, n),
    decreases n - idx,
{
    if idx < n {
        assert(entry_kept(d0, dir0, d1, dir1, idx));
        let off = idx * 32;
        match block_of(d0, dir0, off / 4096) {
            Err(_) => {},
            Ok(b) => {
                let pos = entry_pos(d0, dir0, idx);
                let sector = b * 8 + (off % 4096) / 512;
                assert(pos == b * 4096 + off % 4096);
                lemma_entry_in_sector(b as int, idx);
                if sector_in_range(d0, sector) {
                    assert(pos + 32 <= d0.len());
                    assert(d1[pos + 4] == d0[pos + 4]);
                }
                if sector_in_range(d0, sector) && d0[pos + 4] <= 27 {
                    assert(pos + 32 <= d0.len());
                    let len = d0[pos + 4] as int;
                    assert forall|t: int| 0 <= t < len implies #[trigger] d1[pos + 5 + t] == d0[pos + 5 + t] by {
                        assert(d1[pos + (5 + t)] == d0[pos + (5 + t)]);
                    }
                    let s1 = d1.subrange(pos + 5, pos + 5 + len);
                    let s0 = d0.subrange(pos + 5, pos + 5 + len);
                    assert forall|t: int| 0 <= t < len implies s1[t] == s0[t] by {
                        assert(s1[t] == d1[pos + 5 + t]);
                        assert(s0[t] == d0[pos + 5 + t]);
                    }
                    assert(s1 =~= s0);
                    assert(le_u32(d1, pos) == le_u32(d0, pos)) by {
                        assert(d1[pos + 0] == d0[pos + 0]);
                        assert(d1[pos + 1] == d0[pos + 1]);
                        assert(d1[pos + 2] == d0[pos + 2]);
                        assert(d1[pos + 3] == d0[pos + 3]);
                    }
                }
                lemma_scan_kept(d0, dir0, d1, dir1, name, idx + 1, n);
            },
        }
    }
}

/// Scanning one entry more finds what the shorter scan found, or, where it
/// found nothing, what the added entry gives.
proof fn lemma_scan_extend(d: Seq<u8>, dir: INodeInner, name: Seq<u8>, idx: int, n: int)
    requires
        0 <= idx <= n,
    ensures
        dir_scan(d, dir, name, idx, n + 1) == if dir_scan(d, dir, name, idx, n) == Err::<u32, VfsError>(
            VfsError::NotFound,
        ) {
            dir_scan(d, dir, name, n, n + 1)
        } else {
            dir_scan(d, dir, name, idx, n)
        },
    decreases n - idx,
{
    if idx < n {
        lemma_scan_extend(d, dir, name, idx + 1, n);
    }
}

/// The layout creating a file in directory `p0` relies on: bitmaps and the
/// inode table lie before the data blocks, the directory's record is in the
/// table and taken in the inode bitmap, every block under the directory's
/// size is a data block taken in the data bitmap, and no two are the same.
pub open spec fn create_layout_ok(d: Seq<u8>, sb: SuperBlock, p0: INode) -> bool {
    let dbs = sb.data_block_start as int;
    let sz = p0.inner.metadata.sz as int;
    let top = sz / 4096;
    &&& sb.inode_bitmap_block < sb.data_block_start
    &&& sb.data_bitmap_block < sb.data_block_start
    &&& sb.inode_table_start * 4096 + sb.ninodes * 64 <= dbs * 4096
    &&& p0.inum < sb.ninodes
    &&& bit_set(d, sb.inode_bitmap_block as int, p0.inum as int)
    &&& forall|k: int| 0 <= k < 12 && k * 4096 < sz ==> #[trigger] p0.inner.direct_blocks@[k] != 0
    &&& forall|k: int|
        0 <= k < 12 && k <= top && #[trigger] p0.inner.direct_blocks@[k] != 0 ==> p0.inner.direct_blocks@[k]
            >= dbs && bit_set(d, sb.data_bitmap_block as int, p0.inner.direct_blocks@[k] - dbs)
    &&& forall|k1: int, k2: int|
        0 <= k1 < k2 < 12 && k2 <= top && p0.inner.direct_blocks@[k1] != 0 ==> #[trigger] p0.inner.direct_blocks@[k1]
            != #[trigger] p0.inner.direct_blocks@[k2]
}

/// What a successful allocation from a bitmap tells: the bit was free, in
/// range, on the device, and the bitmap fits in its block.
pub(crate) proof fn lemma_alloc_ok(d: Seq<u8>, bb: int, start: int, end: int, b: int)
    requires
        alloc_outcome(d, bb, start, end) == Ok::<int, VfsError>(b),
        0 <= start,
    ensures
        start <= b < end,
        end <= 32768,
        !bit_set(d, bb, b),
        sector_in_range(d, bb * 8 + b / 4096),
{
    lemma_scan_ok(d, bb, start, end, b);
}

proof fn lemma_scan_ok(d: Seq<u8>, bb: int, i: int, end: int, b: int)
    requires
        bitmap_scan(d, bb, i, end) == Ok::<int, VfsError>(b),
    ensures
        i <= b < end,
        !bit_set(d, bb, b),
        sector_in_range(d, bb * 8 + b / 4096),
    decreases end - i,
{
    if i < end && sector_in_range(d, bb * 8 + i / 4096) && bit_set(d, bb, i) {
        lemma_scan_ok(d, bb, i + 1, end, b);
    }
}

/// Setting a bit changes one byte of the bitmap's block and clears no bit.
proof fn lemma_set_bit_local(d: Seq<u8>, bb: int, b: int, bb2: int, b2: int)
    requires
        0 <= bb,
        0 <= b < 32768,
        sector_in_range(d, bb * 8 + b / 4096),
    ensures
        set_bit(d, bb, b).len() == d.len(),
        bb * 4096 <= bit_byte(bb, b) < bb * 4096 + 4096,
        forall|j: int| 0 <= j < d.len() && j != bit_byte(bb, b) ==> #[trigger] set_bit(d, bb, b)[j] == d[j],
        0 <= bb2 && 0 <= b2 && bit_byte(bb2, b2) < d.len() && bit_set(d, bb2, b2) ==> bit_set(set_bit(d, bb, b), bb2, b2),
{
    let p = bit_byte(bb, b);
    assert(p < d.len()) by {
        assert(b / 8 == (b / 4096) * 512 + (b % 4096) / 8);
    }
    if 0 <= bb2 && 0 <= b2 && bit_byte(bb2, b2) < d.len() && bit_set(d, bb2, b2) && bit_byte(bb2, b2) == p {
        let x = d[p];
        let m = bit_mask(b % 8);
        let m2 = bit_mask(b2 % 8);
        assert((x | m) & m2 != 0) by (bit_vector)
            requires
                x & m2 != 0,
        ;
    }
}

/// An inode record reads the same from bytes that agree on its window.
proof fn lemma_inode_at_kept(s: Seq<u8>, t: Seq<u8>, p: int, x: INodeInner)
    requires
        inode_at(s, p, x),
        forall|j: int| p <= j < p + 64 ==> #[trigger] t[j] == s[j],
    ensures
        inode_at(t, p, x),
{
    assert forall|k: int| 0 <= k < 12 implies le_u32(t, p + 12 + 4 * k) == #[trigger] x.direct_blocks@[k] by {
        assert(le_u32(s, p + 12 + 4 * k) == x.direct_blocks@[k]);
        assert(t[p + 12 + 4 * k] == s[p + 12 + 4 * k]);
        assert(t[p + 12 + 4 * k + 1] == s[p + 12 + 4 * k + 1]);
        assert(t[p + 12 + 4 * k + 2] == s[p + 12 + 4 * k + 2]);
        assert(t[p + 12 + 4 * k + 3] == s[p + 12 + 4 * k + 3]);
    }
    assert(t[p] == s[p] && t[p + 1] == s[p + 1]);
    assert(t[p + 2] == s[p + 2] && t[p + 3] == s[p + 3]);
    assert(t[p + 4] == s[p + 4] && t[p + 5] == s[p + 5] && t[p + 6] == s[p + 6] && t[p + 7] == s[p + 7]);
    assert(t[p + 8] == s[p + 8] && t[p + 9] == s[p + 9] && t[p + 10] == s[p + 10] && t[p + 11] == s[p + 11]);
    assert(t[p + 60] == s[p + 60] && t[p + 61] == s[p + 61] && t[p + 62] == s[p + 62] && t[p + 63] == s[p + 63]);
}

/// Where entry `j` of a directory of `sz` bytes lies in its blocks.
proof fn lemma_entry_geometry(j: int, sz: int)
    requires
        0 <= j,
        j * 32 < sz,
        sz % 32 == 0,
    ensures
        (j * 32 / 4096) * 4096 < sz,
        j * 32 / 4096 <= sz / 4096,
        (j * 32) % 4096 + 32 <= 4096,
        j * 32 / 4096 == sz / 4096 ==> (j * 32) % 4096 + 32 <= sz % 4096,
        sz % 4096 + 32 <= 4096,
{
    assert((j * 32 / 4096) * 4096 + (j * 32) % 4096 == j * 32) by (nonlinear_arith)
        requires
            0 <= j,
    ;
    assert((sz / 4096) * 4096 + sz % 4096 == sz) by (nonlinear_arith)
        requires
            0 <= sz,
    ;
    assert((j * 32) % 4096 % 32 == 0) by (nonlinear_arith)
        requires
            0 <= j,
    ;
    assert(sz % 4096 % 32 == 0) by (nonlinear_arith)
        requires
            sz % 32 == 0,
            0 <= sz,
    ;
    assert(j * 32 / 4096 <= sz / 4096) by (nonlinear_arith)
        requires
            0 <= j * 32 < sz,
    ;
}

/// Two 32-byte windows in different blocks do not meet.
proof fn lemma_windows_apart(a: int, oa: int, b: int, ob: int)
    requires
        a != b,
        0 <= a,
        0 <= b,
        0 <= oa,
        oa + 32 <= 4096,
        0 <= ob,
        ob + 32 <= 4096,
    ensures
        a * 4096 + oa + 32 <= b * 4096 + ob || b * 4096 + ob + 32 <= a * 4096 + oa,
{
    if a < b {
        assert(a * 4096 + 4096 <= b * 4096) by (nonlinear_arith)
            requires
                a < b,
        ;
    } else {
        assert(b * 4096 + 4096 <= a * 4096) by (nonlinear_arith)
            requires
                b < a,
        ;
    }
}

/// The block the new entry goes to.
pub open spec fn entry_block(p0: INode, p1: INode) -> int {
    p1.inner.direct_blocks@[p0.inner.metadata.sz as int / 4096] as int
}

/// Where the new entry goes on the device.
pub open spec fn entry_spot(p0: INode, p1: INode) -> int {
    entry_block(p0, p1) * 4096 + p0.inner.metadata.sz as int % 4096
}

/// The branch of [`create_file_outcome`] in which a file was made.
pub open spec fn create_succeeded(
    d: Seq<u8>,
    sb: SuperBlock,
    p0: INode,
    name: Seq<u8>,
    made: INode,
    p1: INode,
    d1: Seq<u8>,
) -> bool {
    let idx = p0.inner.metadata.sz as int / 4096;
    &&& 0 < name.len() <= 27
    &&& p0.inner.ty == Type::Directory
    &&& p0.inner.metadata.sz % 32 == 0
    &&& dir_lookup(d, p0.inner, name) == Err::<u32, VfsError>(VfsError::NotFound)
    &&& p0.inner.metadata.sz + 32 <= u32::MAX
    &&& idx < 12
    &&& 1 <= made.inum < sb.ninodes
    &&& grown_dir(p0.inner, p1.inner, idx)
    &&& p0.inner.direct_blocks@[idx] != 0 ==> p1.inner.direct_blocks@[idx] == p0.inner.direct_blocks@[idx]
    &&& p1.inum == p0.inum
    &&& created_on_disk(d, sb, p0, p1, made, name, d1)
}

proof fn lemma_create_succeeded(
    d: Seq<u8>,
    sb: SuperBlock,
    p0: INode,
    name: Seq<u8>,
    r: Result<INode, VfsError>,
    p1: INode,
    d1: Seq<u8>,
)
    requires
        create_file_outcome(d, sb, p0, name, r, p1, d1),
        r is Ok,
    ensures
        create_succeeded(d, sb, p0, name, r->Ok_0, p1, d1),
{
    reveal(lookup_outcome);
}

/// What the allocations of a successful creation tell under the layout.
proof fn lemma_create_allocs(d: Seq<u8>, sb: SuperBlock, p0: INode, name: Seq<u8>, made: INode, p1: INode, d1: Seq<u8>)
    requires
        create_succeeded(d, sb, p0, name, made, p1, d1),
        create_layout_ok(d, sb, p0),
    ensures
        entry_block(p0, p1) >= sb.data_block_start,
        made.inum != p0.inum,
        with_dir_block(d, sb, p0, p1).len() == d.len(),
        sector_in_range(with_dir_block(d, sb, p0, p1), sb.inode_bitmap_block * 8 + made.inum / 4096),
        made.inum < 32768,
        forall|j: int| 0 <= j < d.len() && j >= sb.data_block_start * 4096 ==> #[trigger] with_dir_block(d, sb, p0, p1)[j] == d[j],
        forall|k: int|
            0 <= k < 12 && k * 4096 < p0.inner.metadata.sz && k != p0.inner.metadata.sz / 4096
                ==> #[trigger] p0.inner.direct_blocks@[k] != entry_block(p0, p1),
{
    let dbs = sb.data_block_start as int;
    let ibb = sb.inode_bitmap_block as int;
    let dbb = sb.data_bitmap_block as int;
    let idx = p0.inner.metadata.sz as int / 4096;
    let blk = entry_block(p0, p1);
    let da = with_dir_block(d, sb, p0, p1);
    if p0.inner.direct_blocks@[idx] == 0 {
        lemma_alloc_ok(d, dbb, 0, sb.nblocks - dbs, blk - dbs);
        lemma_set_bit_local(d, dbb, blk - dbs, ibb, p0.inum as int);
        assert(bit_byte(ibb, p0.inum as int) < d.len()) by {
            lemma_alloc_ok(da, ibb, 1, sb.ninodes as int, made.inum as int);
            assert(p0.inum / 8 < 4096);
            assert(bit_byte(ibb, made.inum as int) < da.len()) by {
                assert(made.inum / 8 == (made.inum / 4096) * 512 + (made.inum % 4096) / 8);
            }
        }
        assert forall|k: int|
            0 <= k < 12 && k * 4096 < p0.inner.metadata.sz && k != idx implies #[trigger] p0.inner.direct_blocks@[k]
                != blk by {
            assert(k <= idx);
            assert(p0.inner.direct_blocks@[k] != 0);
        }
    } else {
        assert forall|k: int|
            0 <= k < 12 && k * 4096 < p0.inner.metadata.sz && k != idx implies #[trigger] p0.inner.direct_blocks@[k]
                != blk by {
            assert(k <= idx);
            assert(p0.inner.direct_blocks@[k] != 0);
            if k < idx {
                assert(p0.inner.direct_blocks@[k] != p0.inner.direct_blocks@[idx]);
            }
        }
    }
    lemma_alloc_ok(da, ibb, 1, sb.ninodes as int, made.inum as int);
}

/// The bytes a successful creation leaves, under the layout.
#[verifier::rlimit(60)]
proof fn lemma_create_bytes(d: Seq<u8>, sb: SuperBlock, p0: INode, name: Seq<u8>, made: INode, p1: INode, d1: Seq<u8>)
    requires
        created_on_disk(d, sb, p0, p1, made, name, d1),
        sb.inode_bitmap_block < sb.data_block_start,
        sb.inode_table_start * 4096 + sb.ninodes * 64 <= sb.data_block_start * 4096,
        p0.inum < sb.ninodes,
        made.inum < sb.ninodes,
        p0.inner.metadata.sz % 32 == 0,
        name.len() <= 27,
        entry_block(p0, p1) >= sb.data_block_start,
        made.inum != p0.inum,
        with_dir_block(d, sb, p0, p1).len() == d.len(),
        sector_in_range(with_dir_block(d, sb, p0, p1), sb.inode_bitmap_block * 8 + made.inum / 4096),
        made.inum < 32768,
        forall|j: int| 0 <= j < d.len() && j >= sb.data_block_start * 4096 ==> #[trigger] with_dir_block(d, sb, p0, p1)[j] == d[j],
    ensures
        d1.len() == d.len(),
        entry_spot(p0, p1) >= sb.data_block_start * 4096,
        forall|j: int|
            sb.data_block_start * 4096 <= j < d.len() && (j < entry_spot(p0, p1) || j >= entry_spot(p0, p1) + 32)
                ==> #[trigger] d1[j] == d[j],
        sector_in_range(d1, entry_spot(p0, p1) / 512),
        d1[entry_spot(p0, p1) + 4] == name.len(),
        le_u32(d1, entry_spot(p0, p1)) == made.inum,
        forall|t: int| 0 <= t < name.len() ==> #[trigger] d1[entry_spot(p0, p1) + 5 + t] == name[t],
        inode_at(d1, inode_pos(sb.inode_table_start as int, made.inum as int), made.inner),
        sector_in_range(d1, inode_pos(sb.inode_table_start as int, made.inum as int) / 512),
{
    let ts = sb.inode_table_start as int;
    let dbs = sb.data_block_start as int;
    let ibb = sb.inode_bitmap_block as int;
    let blk = entry_block(p0, p1);
    let dpos = entry_spot(p0, p1);
    let da = with_dir_block(d, sb, p0, p1);
    let db0 = set_bit(da, ibb, made.inum as int);
    let ipos = inode_pos(ts, made.inum as int);
    let ppos = inode_pos(ts, p0.inum as int);
    assert(created_on_disk(d, sb, p0, p1, made, name, d1));
    let (db, dc) = choose|db: Seq<u8>, dc: Seq<u8>|
        {
            &&& sector_in_range(db0, ipos / 512)
            &&& inode_at(db, ipos, made.inner)
            &&& same_outside(db, db0, ipos, 64)
            &&& sector_in_range(db, dpos / 512)
            &&& le_u32(dc, dpos) == made.inum
            &&& dc[dpos + 4] == name.len()
            &&& (forall|t: int| 0 <= t < name.len() ==> #[trigger] dc[dpos + 5 + t] == name[t])
            &&& same_outside(dc, db, dpos, 32)
            &&& inode_at(d1, ppos, p1.inner)
            &&& same_outside(d1, dc, ppos, 64)
        };
    lemma_set_bit_local(da, ibb, made.inum as int, 0, 0);
    assert(ipos + 64 <= dbs * 4096 && ppos + 64 <= dbs * 4096);
    assert(dpos >= dbs * 4096) by {
        assert(blk * 4096 >= dbs * 4096) by (nonlinear_arith)
            requires
                blk >= dbs,
        ;
    }
    assert(d1.len() == d.len());
    let sz = p0.inner.metadata.sz as int;
    assert((sz / 32) * 32 == sz);
    lemma_entry_in_sector(blk, sz / 32);
    assert(dpos / 512 == blk * 8 + (sz % 4096) / 512) by (nonlinear_arith)
        requires
            dpos == blk * 4096 + sz % 4096,
            0 <= sz % 4096 < 4096,
    ;
    assert(dpos + 32 <= d.len());
    assert forall|j: int|
        dbs * 4096 <= j < d.len() && (j < dpos || j >= dpos + 32) implies #[trigger] d1[j] == d[j] by {
        assert(d1[j] == dc[j]);
        assert(dc[j] == db[j]);
        assert(db[j] == db0[j]);
        assert(db0[j] == da[j]);
    }
    assert(d1[dpos + 4] == dc[dpos + 4]);
    assert forall|t: int| 0 <= t < name.len() implies #[trigger] d1[dpos + 5 + t] == name[t] by {
        assert(d1[dpos + 5 + t] == dc[dpos + 5 + t]);
    }
    assert(le_u32(d1, dpos) == made.inum) by {
        assert(d1[dpos + 0] == dc[dpos + 0]);
        assert(d1[dpos + 1] == dc[dpos + 1]);
        assert(d1[dpos + 2] == dc[dpos + 2]);
        assert(d1[dpos + 3] == dc[dpos + 3]);
    }
    assert forall|j: int| ipos <= j < ipos + 64 implies #[trigger] d1[j] == db[j] by {
        assert(d1[j] == dc[j]);
        assert(dc[j] == db[j]);
    }
    lemma_inode_at_kept(db, d1, ipos, made.inner);
}

/// The entries a successful creation finds already there are kept.
proof fn lemma_create_keeps_entries(d: Seq<u8>, sb: SuperBlock, p0: INode, name: Seq<u8>, made: INode, p1: INode, d1: Seq<u8>)
    requires
        create_succeeded(d, sb, p0, name, made, p1, d1),
        create_layout_ok(d, sb, p0),
        entry_block(p0, p1) >= sb.data_block_start,
        forall|k: int|
            0 <= k < 12 && k * 4096 < p0.inner.metadata.sz && k != p0.inner.metadata.sz / 4096
                ==> #[trigger] p0.inner.direct_blocks@[k] != entry_block(p0, p1),
        d1.len() == d.len(),
        forall|j: int|
            sb.data_block_start * 4096 <= j < d.len() && (j < entry_spot(p0, p1) || j >= entry_spot(p0, p1) + 32)
                ==> #[trigger] d1[j] == d[j],
    ensures
        forall|j: int| 0 <= j < p0.inner.metadata.sz / 32 ==> #[trigger] entry_kept(d, p0.inner, d1, p1.inner, j),
{
    let dbs = sb.data_block_start as int;
    let sz = p0.inner.metadata.sz as int;
    let idx = sz / 4096;
    let blk = entry_block(p0, p1);
    let dpos = entry_spot(p0, p1);
    assert forall|j: int| 0 <= j < sz / 32 implies #[trigger] entry_kept(d, p0.inner, d1, p1.inner, j) by {
        assert(j * 32 < sz) by {
            assert(j * 32 < (sz / 32) * 32 + 32);
            assert((sz / 32) * 32 == sz);
        }
        lemma_entry_geometry(j, sz);
        let lb = j * 32 / 4096;
        let bk = p0.inner.direct_blocks@[lb] as int;
        assert(bk != 0);
        assert(p1.inner.direct_blocks@[lb] == p0.inner.direct_blocks@[lb]);
        assert(bk >= dbs);
        let o = (j * 32) % 4096;
        let e = bk * 4096 + o;
        assert(entry_pos(d, p0.inner, j) == e);
        if lb != idx {
            lemma_windows_apart(bk, o, blk, sz % 4096);
        }
        assert(bk * 4096 >= dbs * 4096) by (nonlinear_arith)
            requires
                bk >= dbs,
        ;
        assert forall|t: int| 0 <= t < 32 && 0 <= entry_pos(d, p0.inner, j) + t < d.len() implies #[trigger] d1[entry_pos(d, p0.inner, j) + t] == d[entry_pos(d, p0.inner, j) + t] by {
            assert(d1[e + t] == d[e + t]);
        }
    }
}

/// Law: after creating a file, looking its name up in the grown directory
/// finds the new inode, whose record reads back as the fresh file; every
/// other name is found, or not, as before. This holds wherever the layout
/// the creation relies on holds.
pub proof fn lemma_create_then_lookup(
    d: Seq<u8>,
    sb: SuperBlock,
    p0: INode,
    name: Seq<u8>,
    r: Result<INode, VfsError>,
    p1: INode,
    d1: Seq<u8>,
    nm: Seq<u8>,
)
    requires
        create_file_outcome(d, sb, p0, name, r, p1, d1),
        r is Ok,
        create_layout_ok(d, sb, p0),
    ensures
        inode_read(d1, sb.inode_table_start as int, r->Ok_0.inum as int) == Ok::<INodeInner, VfsError>(
            r->Ok_0.inner,
        ),
        dir_lookup(d1, p1.inner, nm) == if nm == name {
            Ok::<u32, VfsError>(r->Ok_0.inum)
        } else {
            dir_lookup(d, p0.inner, nm)
        },
{
    let made = r->Ok_0;
    let ts = sb.inode_table_start as int;
    let sz = p0.inner.metadata.sz as int;
    let n = sz / 32;
    let blk = entry_block(p0, p1);
    let dpos = entry_spot(p0, p1);
    lemma_create_succeeded(d, sb, p0, name, r, p1, d1);
    lemma_create_allocs(d, sb, p0, name, made, p1, d1);
    assert(created_on_disk(d, sb, p0, p1, made, name, d1));
    lemma_create_bytes(d, sb, p0, name, made, p1, d1);
    lemma_create_keeps_entries(d, sb, p0, name, made, p1, d1);
    lemma_inode_round_trip(d1, ts, made.inum as int, made.inner);
    lemma_scan_kept(d, p0.inner, d1, p1.inner, nm, 0, n);
    lemma_scan_extend(d1, p1.inner, nm, 0, n);
    lemma_create_new_entry(d, sb, p0, name, made, p1, d1, nm);
    assert(p1.inner.metadata.sz == sz + 32);
    assert((sz + 32) / 32 == n + 1);
}

/// The entry a successful creation adds names the new inode.
#[verifier::rlimit(40)]
proof fn lemma_create_new_entry(
    d: Seq<u8>,
    sb: SuperBlock,
    p0: INode,
    name: Seq<u8>,
    made: INode,
    p1: INode,
    d1: Seq<u8>,
    nm: Seq<u8>,
)
    requires
        create_succeeded(d, sb, p0, name, made, p1, d1),
        entry_block(p0, p1) >= sb.data_block_start,
        sb.data_bitmap_block < sb.data_block_start,
        d1.len() == d.len(),
        sector_in_range(d1, entry_spot(p0, p1) / 512),
        d1[entry_spot(p0, p1) + 4] == name.len(),
        le_u32(d1, entry_spot(p0, p1)) == made.inum,
        forall|t: int| 0 <= t < name.len() ==> #[trigger] d1[entry_spot(p0, p1) + 5 + t] == name[t],
    ensures
        dir_scan(d1, p1.inner, nm, p0.inner.metadata.sz as int / 32, p0.inner.metadata.sz as int / 32 + 1) == if nm
            == name {
            Ok::<u32, VfsError>(made.inum)
        } else {
            Err::<u32, VfsError>(VfsError::NotFound)
        },
{
    let sz = p0.inner.metadata.sz as int;
    let n = sz / 32;
    let blk = entry_block(p0, p1);
    let dpos = entry_spot(p0, p1);
    assert(n * 32 == sz);
    assert(sz / 4096 < 12);
    assert(block_of(d1, p1.inner, (n * 32) / 4096) == Ok::<u32, VfsError>(blk as u32));
    assert(dpos / 512 == blk * 8 + (sz % 4096) / 512) by (nonlinear_arith)
        requires
            dpos == blk * 4096 + sz % 4096,
            0 <= sz % 4096 < 4096,
    ;
    let len = name.len() as int;
    assert(d1.subrange(dpos + 5, dpos + 5 + len) =~= name) by {
        assert forall|t: int| 0 <= t < len implies d1.subrange(dpos + 5, dpos + 5 + len)[t] == name[t] by {
            assert(d1[dpos + 5 + t] == name[t]);
        }
    }
    let off = n * 32;
    assert(off / 4096 == sz / 4096 && off % 4096 == sz % 4096);
    assert(blk * 4096 + off % 4096 == dpos);
    assert(sector_in_range(d1, blk * 8 + (off % 4096) / 512));
    assert(d1[dpos + 4] <= 27);
    assert(dir_scan(d1, p1.inner, nm, n + 1, n + 1) == Err::<u32, VfsError>(VfsError::NotFound));
    assert(dir_scan(d1, p1.inner, nm, n, n + 1) == if d1.subrange(dpos + 5, dpos + 5 + d1[dpos + 4]) == nm {
        Ok::<u32, VfsError>(le_u32(d1, dpos) as u32)
    } else {
        dir_scan(d1, p1.inner, nm, n + 1, n + 1)
    });
}

} // verus!
