use efiks::vfs::{checked_offset, get_inode, lookup_path, open, read, seek, File, SeekFrom};
use efiks::vsfs::{decode_superblock, MemoryDisk, Type, BLOCK_SIZE, MAGIC};

fn put_u32(d: &mut [u8], p: usize, v: u32) {
    d[p..p + 4].copy_from_slice(&v.to_le_bytes());
}

fn put_u16(d: &mut [u8], p: usize, v: u16) {
    d[p..p + 2].copy_from_slice(&v.to_le_bytes());
}

/// Superblock in block 0, inode table in block 1, data from block 2 on:
/// the root (inode 1, block 2) names `init` (inode 2, block 3, 10 bytes)
/// and the directory `bin` (inode 3, block 4), which is empty.
fn disk() -> MemoryDisk {
    let mut d = vec![0u8; 5 * BLOCK_SIZE];
    put_u32(&mut d, 0, MAGIC);
    put_u32(&mut d, 4, 5);
    put_u32(&mut d, 8, 8);
    put_u32(&mut d, 20, 1);
    put_u32(&mut d, 24, 1);
    put_u32(&mut d, 28, 2);
    let inode = |d: &mut Vec<u8>, inum: usize, ty: u16, sz: u32, block: u32| {
        let p = BLOCK_SIZE + inum * 64;
        put_u16(d, p, ty);
        put_u16(d, p + 2, 1);
        put_u32(d, p + 8, sz);
        put_u32(d, p + 12, block);
    };
    inode(&mut d, 1, 1, 64, 2);
    inode(&mut d, 2, 2, 10, 3);
    inode(&mut d, 3, 1, 0, 4);
    let root = 2 * BLOCK_SIZE;
    put_u32(&mut d, root, 2);
    d[root + 4] = 4;
    d[root + 5..root + 9].copy_from_slice(b"init");
    put_u32(&mut d, root + 32, 3);
    d[root + 36] = 3;
    d[root + 37..root + 40].copy_from_slice(b"bin");
    d[3 * BLOCK_SIZE..3 * BLOCK_SIZE + 10].copy_from_slice(b"0123456789");
    MemoryDisk::new(d)
}

#[test]
fn signed_offsets_are_checked() {
    assert_eq!(checked_offset(10, -3), Some(7));
    assert_eq!(checked_offset(10, -11), None);
    assert_eq!(checked_offset(usize::MAX, 1), None);
    assert_eq!(checked_offset(0, isize::MIN), None);
    assert_eq!(checked_offset(5, 5), Some(10));
}

#[test]
fn kernel_open_walks_from_the_root() {
    let dev = disk();
    let sb = decode_superblock(&dev.bytes[..512].to_vec());
    let f = open(&dev, &sb, b"/init").unwrap();
    assert_eq!(f.offset, 0);
    assert_eq!(f.inode.ty, Type::File);
    assert_eq!(f.inode.metadata.sz, 10);
    let bin = open(&dev, &sb, b"/bin/").unwrap();
    assert_eq!(bin.inode.ty, Type::Directory);
    assert!(open(&dev, &sb, b"/init/more").is_none());
    let root = get_inode(&dev, &sb, 1);
    assert_eq!(root.metadata.sz, 64);
    assert_eq!(lookup_path(&dev, &sb, &root, b"bin").unwrap().direct_blocks[0], 4);
    assert!(lookup_path(&dev, &sb, &root, b"nope").is_err());
    assert!(lookup_path(&dev, &sb, &get_inode(&dev, &sb, 2), b"x").is_err());
}

#[test]
fn kernel_read_and_seek() {
    let dev = disk();
    let sb = decode_superblock(&dev.bytes[..512].to_vec());
    let mut f = open(&dev, &sb, b"init").unwrap();
    let mut buf = vec![0u8; 4];
    assert_eq!(read(&dev, &mut f, &mut buf), Ok(4));
    assert_eq!(&buf, b"0123");
    assert_eq!(f.offset, 4);
    assert_eq!(seek(&mut f, SeekFrom::Current(2)), Ok(6));
    assert_eq!(read(&dev, &mut f, &mut buf), Ok(4));
    assert_eq!(&buf, b"6789");
    assert_eq!(read(&dev, &mut f, &mut buf), Ok(0));
    assert_eq!(seek(&mut f, SeekFrom::End(-3)), Ok(7));
    assert_eq!(seek(&mut f, SeekFrom::End(1)), Err(()));
    assert_eq!(seek(&mut f, SeekFrom::Current(-8)), Err(()));
    assert_eq!(f.offset, 7);
    assert_eq!(seek(&mut f, SeekFrom::Start(0)), Ok(0));
    let mut dir = open(&dev, &sb, b"bin").unwrap();
    assert_eq!(read(&dev, &mut dir, &mut buf), Err(()));
    assert_eq!(seek(&mut dir, SeekFrom::Start(0)), Err(()));
}

#[test]
fn kernel_write_stays_within_the_file() {
    let mut dev = disk();
    let sb = decode_superblock(&dev.bytes[..512].to_vec());
    let mut f = open(&dev, &sb, b"init").unwrap();
    assert_eq!(seek(&mut f, SeekFrom::Start(8)), Ok(8));
    assert_eq!(efiks::vfs::write(&mut dev, &mut f, b"abcd"), Ok(2));
    assert_eq!(f.offset, 10);
    assert_eq!(&dev.bytes[3 * BLOCK_SIZE..3 * BLOCK_SIZE + 10], b"01234567ab");
    let mut g = File { inode: f.inode, offset: 0 };
    let mut buf = vec![0u8; 10];
    assert_eq!(read(&dev, &mut g, &mut buf), Ok(10));
    assert_eq!(&buf, b"01234567ab");
    let mut dir = open(&dev, &sb, b"bin").unwrap();
    assert_eq!(efiks::vfs::write(&mut dev, &mut dir, b"x"), Err(()));
}
