use efiks::file_table::{FileRef, FileTable, WriteDone};
use efiks::syscall::{do_syscall_read, do_syscall_write, FileIoError};
use efiks::vsfs::{
    decode_dirent, decode_inode, decode_superblock, encode_dirent, encode_inode, get_u16_le,
    get_u32_le, initialize, names_equal, set_u16_le, set_u32_le, split_path, DirEnt, File, INode,
    INodeInner, MemoryDisk, Metadata, SuperBlock, Type, VfsError, Vsfs, BLOCK_SIZE,
    DIRECT_BLOCKS, MAGIC,
};

const TABLE_START: usize = 3;

fn put_u32(d: &mut [u8], p: usize, v: u32) {
    d[p..p + 4].copy_from_slice(&v.to_le_bytes());
}

fn put_u16(d: &mut [u8], p: usize, v: u16) {
    d[p..p + 2].copy_from_slice(&v.to_le_bytes());
}

fn put_inode(d: &mut [u8], inum: usize, ty: u16, sz: u32, direct0: u32) {
    let p = TABLE_START * BLOCK_SIZE + inum * 64;
    put_u16(d, p, ty);
    put_u16(d, p + 2, 1);
    put_u32(d, p + 4, 0);
    put_u32(d, p + 8, sz);
    put_u32(d, p + 12, direct0);
}

fn put_dirent(d: &mut [u8], p: usize, inum: u32, name: &[u8]) {
    put_u32(d, p, inum);
    d[p + 4] = name.len() as u8;
    d[p + 5..p + 5 + name.len()].copy_from_slice(name);
}

/// An eight-block image: superblock, inode bitmap, data bitmap, inode table,
/// then data. The root directory (inode 1, data block 4) holds `hello`
/// (inode 2, data block 5, containing `world`) and the directory `etc`
/// (inode 3, data block 6, holding `motd`, inode 4, data block 7).
fn image() -> Vec<u8> {
    let mut d = vec![0u8; 8 * BLOCK_SIZE];
    put_u32(&mut d, 0, MAGIC);
    put_u32(&mut d, 4, 8);
    put_u32(&mut d, 8, 16);
    put_u32(&mut d, 12, 1);
    put_u32(&mut d, 16, 2);
    put_u32(&mut d, 20, TABLE_START as u32);
    put_u32(&mut d, 24, 1);
    put_u32(&mut d, 28, 4);
    // Inodes 0 to 4 are taken; data blocks 4 to 7 (bits 0 to 3) too.
    d[BLOCK_SIZE] = 0b1_1111;
    d[2 * BLOCK_SIZE] = 0b1111;
    put_inode(&mut d, 1, 1, 64, 4);
    put_inode(&mut d, 2, 2, 5, 5);
    put_inode(&mut d, 3, 1, 32, 6);
    put_inode(&mut d, 4, 2, 3, 7);
    put_dirent(&mut d, 4 * BLOCK_SIZE, 2, b"hello");
    put_dirent(&mut d, 4 * BLOCK_SIZE + 32, 3, b"etc");
    put_dirent(&mut d, 6 * BLOCK_SIZE, 4, b"motd");
    d[5 * BLOCK_SIZE..5 * BLOCK_SIZE + 5].copy_from_slice(b"world");
    d[7 * BLOCK_SIZE..7 * BLOCK_SIZE + 3].copy_from_slice(b"hi!");
    d
}

fn mounted() -> Vsfs<MemoryDisk> {
    initialize(MemoryDisk::new(image())).unwrap()
}

#[test]
fn reads_and_writes_across_direct_indirect_boundary() {
    const DIRECT_DATA_BLOCK: u32 = 1;
    const INDIRECT_BLOCK: u32 = 2;
    const INDIRECT_DATA_BLOCK: u32 = 3;

    let mut disk = vec![0; 4 * BLOCK_SIZE];
    let direct_tail = DIRECT_DATA_BLOCK as usize * BLOCK_SIZE + BLOCK_SIZE - 4;
    disk[direct_tail..direct_tail + 4].copy_from_slice(b"abcd");
    let indirect_start = INDIRECT_BLOCK as usize * BLOCK_SIZE;
    disk[indirect_start..indirect_start + std::mem::size_of::<u32>()]
        .copy_from_slice(&INDIRECT_DATA_BLOCK.to_ne_bytes());
    let indirect_data_start = INDIRECT_DATA_BLOCK as usize * BLOCK_SIZE;
    disk[indirect_data_start..indirect_data_start + 4].copy_from_slice(b"efgh");

    let mut fs = Vsfs {
        superblock: SuperBlock {
            magic: MAGIC,
            nblocks: 4,
            ninodes: 1,
            inode_bitmap_block: 0,
            data_bitmap_block: 0,
            inode_table_start: 0,
            inode_table_blocks: 0,
            data_block_start: 1,
        },
        device: MemoryDisk::new(disk),
    };
    let mut direct_blocks = [0; DIRECT_BLOCKS];
    direct_blocks[DIRECT_BLOCKS - 1] = DIRECT_DATA_BLOCK;
    let inode = INode {
        inum: 1,
        inner: INodeInner {
            ty: Type::File,
            link_count: 1,
            metadata: Metadata { dev: 0, sz: ((DIRECT_BLOCKS + 1) * BLOCK_SIZE) as u32 },
            direct_blocks,
            indirect_block: INDIRECT_BLOCK,
        },
    };

    let boundary_offset = DIRECT_BLOCKS * BLOCK_SIZE - 4;
    let mut read_buf = vec![0; 8];
    assert_eq!(inode.read(&fs, boundary_offset, &mut read_buf), Ok(8));
    assert_eq!(&read_buf, b"abcdefgh");

    assert_eq!(inode.write(&mut fs, boundary_offset, b"ABCDEFGH"), Ok(8));
    let disk = &fs.device.bytes;
    assert_eq!(&disk[direct_tail..direct_tail + 4], b"ABCD");
    assert_eq!(&disk[indirect_data_start..indirect_data_start + 4], b"EFGH");
}

#[test]
fn little_endian_fields() {
    let mut b = vec![0u8; 8];
    set_u32_le(&mut b, 2, 0x1234_5678);
    assert_eq!(b, vec![0, 0, 0x78, 0x56, 0x34, 0x12, 0, 0]);
    assert_eq!(get_u32_le(&b, 2), 0x1234_5678);
    set_u16_le(&mut b, 6, 0xabcd);
    assert_eq!(get_u16_le(&b, 6), 0xabcd);
    assert_eq!(b[6], 0xcd);
}

#[test]
fn type_codes() {
    assert_eq!(Type::Directory.code(), 1);
    assert_eq!(Type::File.code(), 2);
    assert_eq!(Type::from_code(1), Some(Type::Directory));
    assert_eq!(Type::from_code(2), Some(Type::File));
    assert_eq!(Type::from_code(3), None);
}

#[test]
fn inode_records_round_trip() {
    let mut b = vec![0u8; 128];
    let mut direct_blocks = [0u32; DIRECT_BLOCKS];
    direct_blocks[0] = 9;
    direct_blocks[11] = 0xdead;
    let i = INodeInner {
        ty: Type::File,
        link_count: 2,
        metadata: Metadata { dev: 7, sz: 12345 },
        direct_blocks,
        indirect_block: 44,
    };
    encode_inode(&mut b, 64, &i);
    assert_eq!(&b[0..64], &[0u8; 64][..]);
    let back = decode_inode(&b, 64).unwrap();
    assert_eq!(back.ty, Type::File);
    assert_eq!(back.link_count, 2);
    assert_eq!(back.metadata.dev, 7);
    assert_eq!(back.metadata.sz, 12345);
    assert_eq!(back.direct_blocks, direct_blocks);
    assert_eq!(back.indirect_block, 44);
    b[64] = 9;
    assert_eq!(decode_inode(&b, 64).map(|_| ()), Err(VfsError::Fs));
}

#[test]
fn directory_entries_round_trip() {
    let mut b = vec![0u8; 64];
    let mut name = [0u8; 27];
    name[..3].copy_from_slice(b"bin");
    encode_dirent(&mut b, 32, &DirEnt { inum: 77, name_len: 3, name });
    let e = decode_dirent(&b, 32);
    assert_eq!(e.inum, 77);
    assert_eq!(e.name_len, 3);
    assert_eq!(&e.name[..3], b"bin");
    assert!(names_equal(&e.name, 3, b"bin"));
    assert!(!names_equal(&e.name, 3, b"bi"));
    assert!(!names_equal(&e.name, 2, b"bin"));
}

#[test]
fn superblock_decodes_fields_in_order() {
    let d = image();
    let sb = decode_superblock(&d[..512].to_vec());
    assert_eq!(sb.magic, MAGIC);
    assert_eq!(sb.nblocks, 8);
    assert_eq!(sb.ninodes, 16);
    assert_eq!(sb.inode_table_start, 3);
    assert_eq!(sb.data_block_start, 4);
}

#[test]
fn paths_split_into_components() {
    let c = split_path(b"/a//bc/d/");
    assert_eq!(c, vec![b"a".to_vec(), b"bc".to_vec(), b"d".to_vec()]);
    assert!(split_path(b"///").is_empty());
    assert_eq!(split_path(b"x"), vec![b"x".to_vec()]);
}

#[test]
fn mounting_checks_magic_and_root() {
    let fs = mounted();
    assert_eq!(fs.superblock.ninodes, 16);
    let mut bad = image();
    bad[0] = 0;
    assert_eq!(initialize(MemoryDisk::new(bad)).map(|_| ()), Err(VfsError::Fs));
    assert_eq!(initialize(MemoryDisk::new(vec![0u8; 100])).map(|_| ()), Err(VfsError::DeviceIO));
    let mut bad_root = image();
    bad_root[TABLE_START * BLOCK_SIZE + 64] = 7;
    assert_eq!(initialize(MemoryDisk::new(bad_root)).map(|_| ()), Err(VfsError::Fs));
}

#[test]
fn open_walks_directories() {
    let fs = mounted();
    let root = fs.root().unwrap();
    assert_eq!(root.inum, 1);
    assert_eq!(root.inner.ty, Type::Directory);
    let f = root.open(&fs, b"/hello").unwrap();
    assert_eq!(f.inode.inum, 2);
    assert_eq!(f.offset, 0);
    assert_eq!(f.inode.sz(), 5);
    let m = root.open(&fs, b"etc//motd").unwrap();
    assert_eq!(m.inode.inum, 4);
    assert_eq!(root.open(&fs, b"/").unwrap().inode.inum, 1);
    assert_eq!(root.open(&fs, b"/missing").map(|_| ()), Err(VfsError::NotFound));
    assert_eq!(root.open(&fs, b"/hello/x").map(|_| ()), Err(VfsError::Fs));
    assert_eq!(fs.read_inode(3).unwrap().inner.ty, Type::Directory);
    let etc = fs.read_inode(3).unwrap();
    assert_eq!(fs.lookup_path_inner(&etc.inner, b"motd").unwrap().inum, 4);
    assert_eq!(fs.lookup_path_inner(&etc.inner, b"hello").map(|_| ()), Err(VfsError::NotFound));
}

#[test]
fn files_read_from_their_offset() {
    let fs = mounted();
    let root = fs.root().unwrap();
    let mut f: File = root.open(&fs, b"hello").unwrap();
    let mut buf = vec![0u8; 3];
    assert_eq!(f.read(&fs, &mut buf), Ok(3));
    assert_eq!(&buf, b"wor");
    assert_eq!(f.offset, 3);
    let mut rest = vec![9u8; 8];
    assert_eq!(f.read(&fs, &mut rest), Ok(2));
    assert_eq!(&rest, &[b'l', b'd', 9, 9, 9, 9, 9, 9]);
    assert_eq!(f.read(&fs, &mut rest), Ok(0));
    assert_eq!(f.seek_start(1), Ok(1));
    assert_eq!(f.seek_start(6), Err(VfsError::Fs));
    assert_eq!(f.offset, 1);
    let mut two = vec![0u8; 2];
    assert_eq!(f.read(&fs, &mut two), Ok(2));
    assert_eq!(&two, b"or");
    let mut dir = File { inode: root, offset: 0 };
    assert_eq!(dir.read(&fs, &mut two), Err(VfsError::Fs));
    assert_eq!(dir.seek_start(0), Err(VfsError::Fs));
}

#[test]
fn inode_writes_stay_within_the_file() {
    let mut fs = mounted();
    let hello = fs.read_inode(2).unwrap();
    assert_eq!(hello.write(&mut fs, 1, b"ABCDEFG"), Ok(4));
    let mut buf = vec![0u8; 5];
    assert_eq!(hello.read(&fs, 0, &mut buf), Ok(5));
    assert_eq!(&buf, b"wABCD");
    assert_eq!(hello.write(&mut fs, 5, b"x"), Ok(0));
    let root = fs.root().unwrap();
    assert_eq!(root.write(&mut fs, 0, b"x"), Err(VfsError::Fs));
    assert_eq!(root.read(&fs, 0, &mut buf), Err(VfsError::Fs));
}

#[test]
fn bitmaps_hand_out_and_take_back() {
    let mut fs = mounted();
    assert_eq!(fs.allocate_inode(), Ok(5));
    assert_eq!(fs.allocate_inode(), Ok(6));
    assert_eq!(fs.free_inode(5), Ok(()));
    assert_eq!(fs.free_inode(5), Err(VfsError::Fs));
    assert_eq!(fs.allocate_inode(), Ok(5));
    // Data blocks 4 to 7 are all taken: the bitmap has no free bit left.
    assert_eq!(fs.allocate_data_block(), Err(VfsError::Fs));
    assert_eq!(fs.free_data_block(7), Ok(()));
    assert_eq!(fs.allocate_data_block(), Ok(7));
    assert_eq!(fs.free_data_block(2), Err(VfsError::Fs));
}

#[test]
fn create_adds_an_empty_file() {
    let mut fs = mounted();
    let root = fs.root().unwrap();
    let f = root.create(&mut fs, b"/etc/issue").unwrap();
    assert_eq!(f.offset, 0);
    assert_eq!(f.inode.inner.ty, Type::File);
    assert_eq!(f.inode.sz(), 0);
    assert_eq!(f.inode.inum, 5);
    let again = root.open(&fs, b"etc/issue").unwrap();
    assert_eq!(again.inode.inum, 5);
    assert_eq!(fs.read_inode(3).unwrap().inner.metadata.sz, 64);
    // The other entries are still there.
    assert_eq!(root.open(&fs, b"etc/motd").unwrap().inode.inum, 4);
    assert_eq!(root.create(&mut fs, b"/etc/issue").map(|_| ()), Err(VfsError::Fs));
    assert_eq!(root.create(&mut fs, b"/nowhere/x").map(|_| ()), Err(VfsError::NotFound));
    assert_eq!(root.create(&mut fs, b"/hello/x").map(|_| ()), Err(VfsError::Fs));
}

#[test]
fn create_file_rejects_bad_names() {
    let mut fs = mounted();
    let mut root = fs.root().unwrap();
    assert_eq!(fs.create_file(&mut root, b"").map(|_| ()), Err(VfsError::Fs));
    assert_eq!(
        fs.create_file(&mut root, b"a-name-that-is-far-too-long-for-vsfs").map(|_| ()),
        Err(VfsError::Fs)
    );
    assert_eq!(fs.create_file(&mut root, b"hello").map(|_| ()), Err(VfsError::Fs));
    let made = fs.create_file(&mut root, b"new").unwrap();
    assert_eq!(made.inum, 5);
    assert_eq!(root.inner.metadata.sz, 96);
    assert_eq!(root.open(&fs, b"new").unwrap().inode.inum, 5);
}

/// An eight-block device whose superblock puts the inode table at block
/// `table_start`; only inode 1 is taken.
fn small_fs(table_start: u32) -> Vsfs<MemoryDisk> {
    let mut d = vec![0u8; 8 * BLOCK_SIZE];
    d[BLOCK_SIZE] = 0b10;
    Vsfs {
        superblock: SuperBlock {
            magic: MAGIC,
            nblocks: 8,
            ninodes: 8,
            inode_bitmap_block: 1,
            data_bitmap_block: 2,
            inode_table_start: table_start,
            inode_table_blocks: 1,
            data_block_start: 4,
        },
        device: MemoryDisk::new(d),
    }
}

fn empty_dir(inum: u32, direct0: u32) -> INode {
    let mut direct_blocks = [0u32; DIRECT_BLOCKS];
    direct_blocks[0] = direct0;
    INode {
        inum,
        inner: INodeInner {
            ty: Type::Directory,
            link_count: 1,
            metadata: Metadata { dev: 0, sz: 0 },
            direct_blocks,
            indirect_block: 0,
        },
    }
}

#[test]
fn create_file_in_empty_root_directory() {
    let mut fs = small_fs(3);
    let mut parent = empty_dir(1, 0);
    let made = fs.create_file(&mut parent, b"a").unwrap();
    assert_eq!(made.inum, 2);
    assert_eq!(parent.inner.metadata.sz, 32);
    assert_eq!(parent.inner.direct_blocks[0], 4);
    let d = &fs.device.bytes;
    assert_eq!(&d[16384..16388], &2u32.to_le_bytes());
    assert_eq!(d[16388], 1);
    assert_eq!(d[16389], b'a');
    assert_eq!(d[4096], 0b110);
    assert_eq!(d[8192], 0b1);
}

#[test]
fn create_file_gives_bits_back_when_inode_record_is_off_device() {
    let mut fs = small_fs(100);
    let before = fs.device.bytes.clone();
    let mut parent = empty_dir(1, 0);
    assert_eq!(fs.create_file(&mut parent, b"a").map(|_| ()), Err(VfsError::DeviceIO));
    assert_eq!(fs.device.bytes, before);
    assert_eq!(parent.inner.metadata.sz, 0);
    assert_eq!(parent.inner.direct_blocks[0], 0);
}

#[test]
fn create_file_gives_bits_back_when_entry_is_off_device() {
    let mut fs = small_fs(3);
    let before = fs.device.bytes.clone();
    let mut parent = empty_dir(1, 50);
    assert_eq!(fs.create_file(&mut parent, b"a").map(|_| ()), Err(VfsError::DeviceIO));
    let d = &fs.device.bytes;
    let ipos = 3 * BLOCK_SIZE + 2 * 64;
    assert_eq!(&d[..ipos], &before[..ipos]);
    assert_eq!(&d[ipos + 64..], &before[ipos + 64..]);
    assert_eq!(d[4096], 0b10);
    assert_eq!(parent.inner.metadata.sz, 0);
}

#[test]
fn create_file_keeps_bits_taken_when_directory_record_is_off_device() {
    let mut fs = small_fs(3);
    let mut parent = empty_dir(400, 0);
    assert_eq!(fs.create_file(&mut parent, b"a").map(|_| ()), Err(VfsError::DeviceIO));
    let d = &fs.device.bytes;
    assert_eq!(d[4096], 0b110);
    assert_eq!(d[8192], 0b1);
    assert!(d[16384..16416].iter().all(|b| *b == 0));
    assert_eq!(d[3 * BLOCK_SIZE + 2 * 64], 2);
    assert_eq!(parent.inner.metadata.sz, 0);
    assert_eq!(parent.inner.direct_blocks[0], 0);
}

#[test]
fn a_freed_inode_number_is_handed_out_again() {
    let mut fs = small_fs(3);
    let before = fs.device.bytes.clone();
    let first = fs.allocate_inode().unwrap();
    assert_eq!(first, 2);
    assert_eq!(fs.free_inode(first), Ok(()));
    assert_eq!(fs.device.bytes, before);
    assert_eq!(fs.allocate_inode(), Ok(2));
    assert_eq!(fs.allocate_inode(), Ok(3));
    // Freeing a bit that is free is refused and changes nothing.
    let now = fs.device.bytes.clone();
    assert_eq!(fs.free_inode(5), Err(VfsError::Fs));
    assert_eq!(fs.device.bytes, now);
    // Freeing a taken bit below free ones makes it the next one handed out.
    assert_eq!(fs.free_inode(1), Ok(()));
    assert_eq!(fs.allocate_inode(), Ok(1));
    assert_eq!(fs.device.bytes, now);
}

#[test]
fn a_write_leaves_the_other_bytes_of_the_file_alone() {
    let mut fs = mounted();
    let root = fs.root().unwrap();
    let hello = root.open(&fs, b"hello").unwrap().inode;
    assert_eq!(hello.write(&mut fs, 1, b"OR"), Ok(2));
    let mut all = vec![0u8; 5];
    assert_eq!(hello.read(&fs, 0, &mut all), Ok(5));
    assert_eq!(&all, b"wORld");
    let mut back = vec![0u8; 2];
    assert_eq!(hello.read(&fs, 1, &mut back), Ok(2));
    assert_eq!(&back, b"OR");
}

#[test]
fn read_and_write_system_calls_go_through_the_file_table() {
    let mut fs = mounted();
    let root = fs.root().unwrap();
    let hello = root.open(&fs, b"hello").unwrap();
    let mut files = FileTable::init();
    let fd = files.add_file(FileRef::new(hello)) as u64;
    assert_eq!(fd, 3);

    // The console takes every byte and cannot be read.
    assert_eq!(
        do_syscall_write(&mut files, &mut fs, 1, &b"hi".to_vec()),
        Ok(WriteDone { count: 2, to_console: true })
    );
    let mut buf = vec![0u8; 4];
    assert_eq!(do_syscall_read(&mut files, &fs, 0, &mut buf), Err(FileIoError::Vfs(VfsError::Fs)));
    assert_eq!(FileRef::Console.sz(), 0);

    // Nothing to do answers 0; an unknown descriptor is not found.
    assert_eq!(do_syscall_write(&mut files, &mut fs, 9, &Vec::new()), Ok(WriteDone { count: 0, to_console: false }));
    assert_eq!(do_syscall_write(&mut files, &mut fs, 9, &b"x".to_vec()), Err(FileIoError::NotFound));
    assert_eq!(do_syscall_read(&mut files, &fs, 9, &mut buf), Err(FileIoError::NotFound));

    // A file is read from its offset, which moves on.
    let mut three = vec![0u8; 3];
    assert_eq!(do_syscall_read(&mut files, &fs, fd, &mut three), Ok(3));
    assert_eq!(&three, b"wor");
    // Writing goes on at the offset, within the file's size.
    assert_eq!(
        do_syscall_write(&mut files, &mut fs, fd, &b"LDX".to_vec()),
        Ok(WriteDone { count: 2, to_console: false })
    );
    let mut again = root.open(&fs, b"hello").unwrap();
    let mut all = vec![0u8; 5];
    assert_eq!(again.read(&fs, &mut all), Ok(5));
    assert_eq!(&all, b"worLD");
    assert_eq!(files.get_file(fd as u32).unwrap().sz(), 5);
}
