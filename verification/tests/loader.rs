use efiks::addr::UserBuf;
use efiks::error::Error;
use efiks::exec::{
    convert_elf_flag_to_pte, load_executable, plan_load, read_elf_header, read_exact_at,
    read_program_headers, Elf, Error as ElfError, LoadError, LoadStep, ProgramHeader, ET_EXEC,
    PF_R, PF_W, PF_X, PT_LOAD,
};
use efiks::pte::{PTE_R, PTE_U, PTE_W, PTE_X};
use efiks::syscall::{
    decode_syscall, do_syscall_close, open_decision, open_flags_from_bits, syscall_return_value, OpenAction,
    OpenError, Syscall, O_CREAT, O_EXCL, O_RDWR, SYS_BRK, SYS_CLOSE, SYS_EXIT, SYS_OPEN,
    SYS_READ, SYS_SLEEP_MS, SYS_SPAWN, SYS_WAIT, SYS_WRITE,
};
use efiks::user_stack::initial_stack_layout;
use efiks::file_table::FileTable;
use efiks::errno::Errno;
use efiks::vsfs::{initialize, MemoryDisk, VfsError, Vsfs, BLOCK_SIZE, MAGIC};
use efiks::exec::{apply_load_plan, PageWork, PlanFailure};
use efiks::addr::{PhysAddr, VirtAddr};
use efiks::mm::{KernelStackRegion, MemoryManager};
use efiks::page_meta::PageMetadataTable;
use efiks::page_table::{FramePool, PageTable, Slot};

fn put(d: &mut [u8], p: usize, bytes: &[u8]) {
    d[p..p + bytes.len()].copy_from_slice(bytes);
}

fn elf_image(e_type: u16, phnum: u16) -> Vec<u8> {
    let mut f = vec![0u8; 0x280];
    put(&mut f, 0, &[0x7f, b'E', b'L', b'F', 2, 1, 1, 0, 0]);
    put(&mut f, 16, &e_type.to_le_bytes());
    put(&mut f, 18, &0xf3u16.to_le_bytes());
    put(&mut f, 20, &1u32.to_le_bytes());
    put(&mut f, 24, &0x10078u64.to_le_bytes());
    put(&mut f, 32, &64u64.to_le_bytes());
    put(&mut f, 52, &64u16.to_le_bytes());
    put(&mut f, 54, &56u16.to_le_bytes());
    put(&mut f, 56, &phnum.to_le_bytes());
    let ph = |f: &mut Vec<u8>, at: usize, flags: u32, off: u64, va: u64, filesz: u64, memsz: u64| {
        put(f, at, &PT_LOAD.to_le_bytes());
        put(f, at + 4, &flags.to_le_bytes());
        put(f, at + 8, &off.to_le_bytes());
        put(f, at + 16, &va.to_le_bytes());
        put(f, at + 24, &va.to_le_bytes());
        put(f, at + 32, &filesz.to_le_bytes());
        put(f, at + 40, &memsz.to_le_bytes());
    };
    ph(&mut f, 64, PF_R | PF_X, 0, 0x10000, 0x180, 0x180);
    ph(&mut f, 120, PF_R | PF_W, 0x180, 0x10f80, 0x100, 0x1100);
    f
}

/// A VSFS image whose root holds the executable `prog` (inode 2, data
/// block 4) with the given contents.
fn fs_with(prog: &[u8]) -> Vsfs<MemoryDisk> {
    let mut d = vec![0u8; 5 * BLOCK_SIZE];
    put(&mut d, 0, &MAGIC.to_le_bytes());
    put(&mut d, 4, &5u32.to_le_bytes());
    put(&mut d, 8, &8u32.to_le_bytes());
    put(&mut d, 20, &1u32.to_le_bytes());
    put(&mut d, 28, &2u32.to_le_bytes());
    let root = BLOCK_SIZE + 64;
    put(&mut d, root, &1u16.to_le_bytes());
    put(&mut d, root + 8, &32u32.to_le_bytes());
    put(&mut d, root + 12, &3u32.to_le_bytes());
    let file = BLOCK_SIZE + 128;
    put(&mut d, file, &2u16.to_le_bytes());
    put(&mut d, file + 8, &(prog.len() as u32).to_le_bytes());
    put(&mut d, file + 12, &4u32.to_le_bytes());
    put(&mut d, 3 * BLOCK_SIZE, &2u32.to_le_bytes());
    d[3 * BLOCK_SIZE + 4] = 4;
    put(&mut d, 3 * BLOCK_SIZE + 5, b"prog");
    put(&mut d, 4 * BLOCK_SIZE, prog);
    initialize(MemoryDisk::new(d)).unwrap()
}

#[test]
fn segment_flags_become_user_pte_flags() {
    assert_eq!(convert_elf_flag_to_pte(0), PTE_U);
    assert_eq!(convert_elf_flag_to_pte(PF_R), PTE_U | PTE_R);
    assert_eq!(convert_elf_flag_to_pte(PF_R | PF_W), PTE_U | PTE_R | PTE_W);
    assert_eq!(convert_elf_flag_to_pte(PF_R | PF_X), PTE_U | PTE_R | PTE_X);
}

#[test]
fn headers_are_read_from_the_file() {
    let fs = fs_with(&elf_image(ET_EXEC, 2));
    let mut file = fs.root().unwrap().open(&fs, b"prog").unwrap();
    let h = read_elf_header(&fs, &mut file).unwrap();
    assert!(h.is_64);
    assert_eq!(h.e_type, ET_EXEC);
    assert_eq!(h.e_entry, 0x10078);
    assert_eq!(h.e_phoff, 64);
    assert_eq!(h.e_phentsize, 56);
    assert_eq!(h.e_phnum, 2);
    let phs = read_program_headers(&fs, &mut file, &h).unwrap();
    assert_eq!(
        phs[1],
        ProgramHeader { p_type: PT_LOAD, p_flags: PF_R | PF_W, p_offset: 0x180, p_vaddr: 0x10f80, p_filesz: 0x100, p_memsz: 0x1100 }
    );
    let mut buf = vec![0u8; 4];
    assert_eq!(read_exact_at(&fs, &mut file, 0, &mut buf), Ok(()));
    assert_eq!(&buf, &[0x7f, b'E', b'L', b'F']);
    let mut too_much = vec![0u8; 0x300];
    assert_eq!(read_exact_at(&fs, &mut file, 0, &mut too_much), Err(VfsError::Fs));
}

#[test]
fn bad_identification_is_refused() {
    let mut img = elf_image(ET_EXEC, 2);
    img[1] = b'X';
    let fs = fs_with(&img);
    let mut file = fs.root().unwrap().open(&fs, b"prog").unwrap();
    assert_eq!(read_elf_header(&fs, &mut file), Err(VfsError::Fs));
    assert!(matches!(load_executable(&fs, b"prog"), Err(LoadError::Fs(VfsError::Fs))));
}

#[test]
fn loader_errors() {
    let fs = fs_with(&elf_image(3, 2));
    assert!(matches!(load_executable(&fs, b"/prog"), Err(LoadError::Elf(ElfError::Unsupported))));
    let fs = fs_with(&elf_image(ET_EXEC, 0));
    assert!(matches!(load_executable(&fs, b"/prog"), Err(LoadError::Elf(ElfError::NoProgramHeadersFound))));
    let fs = fs_with(&elf_image(ET_EXEC, 0xffff));
    assert!(matches!(load_executable(&fs, b"/prog"), Err(LoadError::Elf(ElfError::Unsupported))));
    let fs = fs_with(&elf_image(ET_EXEC, 2));
    assert!(matches!(load_executable(&fs, b"/missing"), Err(LoadError::Fs(VfsError::NotFound))));
    let mut img = elf_image(ET_EXEC, 2);
    // The first segment claims more file bytes than memory bytes.
    put(&mut img, 64 + 32, &0x200u64.to_le_bytes());
    let fs = fs_with(&img);
    assert!(matches!(load_executable(&fs, b"/prog"), Err(LoadError::Elf(ElfError::InvalidProgramHeader))));
}

#[test]
fn load_plan_maps_pages_and_copies_bytes() {
    let fs = fs_with(&elf_image(ET_EXEC, 2));
    let plan = load_executable(&fs, b"/prog").unwrap();
    assert_eq!(plan.entry, 0x10078);
    assert_eq!(plan.brk, 0x13000);
    let rx = PTE_U | PTE_R | PTE_X;
    let rw = PTE_U | PTE_R | PTE_W;
    assert_eq!(
        plan.steps,
        vec![
            LoadStep::MapPage { va: 0x10000, flags: rx },
            LoadStep::Copy { file_offset: 0, vaddr: 0x10000, len: 0x180 },
            LoadStep::Remap { va: 0x10000, flags: rx | rw },
            LoadStep::MapPage { va: 0x11000, flags: rw },
            LoadStep::MapPage { va: 0x12000, flags: rw },
            LoadStep::Copy { file_offset: 0x180, vaddr: 0x10f80, len: 0x80 },
            LoadStep::Copy { file_offset: 0x200, vaddr: 0x11000, len: 0x80 },
        ]
    );
}

#[test]
fn plan_checks_segments_against_the_file() {
    let fs = fs_with(&elf_image(ET_EXEC, 2));
    let mut elf = Elf::load_from_file(&fs, b"prog").unwrap();
    assert_eq!(elf.program_headers.len(), 2);
    elf.program_headers[0].p_offset = 0x200;
    assert!(matches!(plan_load(&elf), Err(LoadError::Elf(ElfError::InvalidProgramHeader))));
    elf.program_headers[0].p_offset = u64::MAX;
    assert!(matches!(plan_load(&elf), Err(LoadError::Elf(ElfError::SizeOverflow))));
    elf.program_headers[0].p_offset = 0;
    elf.program_headers[0].p_type = 6;
    let plan = plan_load(&elf).unwrap();
    assert_eq!(plan.steps.len(), 5);
    assert_eq!(plan.steps[0], LoadStep::MapPage { va: 0x10000, flags: PTE_U | PTE_R | PTE_W });
}

#[test]
fn syscalls_decode_by_number() {
    assert!(matches!(decode_syscall(SYS_READ, 0, 0x1000, 5), Ok(Syscall::Read { fd: 0, count: 5, .. })));
    assert!(matches!(decode_syscall(SYS_READ, 0, 0, 5), Err(Error::InvalidArgs)));
    assert!(matches!(decode_syscall(SYS_WRITE, 1, 0x2000, 3), Ok(Syscall::Write { fd: 1, buf: UserBuf(v), count: 3 }) if v.0 == 0x2000));
    assert!(matches!(decode_syscall(SYS_WRITE, 1, 0, 3), Err(Error::InvalidArgs)));
    assert!(matches!(decode_syscall(SYS_EXIT, 0x1ff, 0, 0), Ok(Syscall::Exit { exit_code: -1 })));
    assert!(matches!(decode_syscall(SYS_SLEEP_MS, 20, 0, 0), Ok(Syscall::SleepMs { time_ms: 20 })));
    assert!(matches!(decode_syscall(SYS_BRK, 0x5000, 0, 0), Ok(Syscall::Brk { brk: 0x5000 })));
    assert!(matches!(decode_syscall(SYS_WAIT, 0x10, 0, 0), Ok(Syscall::Wait { out_wstatus }) if out_wstatus.raw() == 0x10));
    assert!(matches!(decode_syscall(SYS_SPAWN, 8, 0x30, 0x40), Ok(Syscall::Spawn { .. })));
    assert!(matches!(decode_syscall(SYS_SPAWN, 8, 0, 0x40), Err(Error::InvalidArgs)));
    assert!(matches!(decode_syscall(SYS_OPEN, 0x30, 0o102, 0), Ok(Syscall::Open { flags: 0o102, .. })));
    assert!(matches!(decode_syscall(SYS_OPEN, 0, 0, 0), Err(Error::InvalidArgs)));
    assert!(matches!(decode_syscall(SYS_CLOSE, 3, 0, 0), Ok(Syscall::Close { fd: 3 })));
    assert!(matches!(decode_syscall(29, 0, 0, 0), Err(Error::NoSys)));
    assert!(matches!(decode_syscall(9999, 0, 0, 0), Err(Error::NoSys)));
}

#[test]
fn return_values_carry_negated_errnos() {
    assert_eq!(syscall_return_value(Ok(42)), 42);
    assert_eq!(syscall_return_value(Err(Error::NoSys)), -38);
    assert_eq!(syscall_return_value(Err(Error::InvalidArgs)), -22);
    assert_eq!(syscall_return_value(Err(Error::Unmapped)), -14);
    assert_eq!(syscall_return_value(Err(Error::NotFound)), -2);
}

#[test]
fn open_flags_and_decisions() {
    assert_eq!(open_flags_from_bits(O_RDWR | O_CREAT), Some(O_RDWR | O_CREAT));
    assert_eq!(open_flags_from_bits(0o40000000), None);
    assert_eq!(open_decision(0o40000000, 3, Ok(())), Err(OpenError::InvalidArgs));
    assert_eq!(open_decision(O_RDWR, 0, Ok(())), Err(OpenError::InvalidArgs));
    assert_eq!(open_decision(O_RDWR, 3, Ok(())), Ok(OpenAction::AddFile));
    assert_eq!(open_decision(O_CREAT | O_EXCL, 3, Ok(())), Err(OpenError::Exists));
    assert_eq!(open_decision(O_CREAT, 3, Ok(())), Ok(OpenAction::AddFile));
    assert_eq!(open_decision(O_CREAT, 3, Err(VfsError::NotFound)), Ok(OpenAction::Create));
    assert_eq!(open_decision(O_RDWR, 3, Err(VfsError::NotFound)), Err(OpenError::Vfs(VfsError::NotFound)));
    assert_eq!(open_decision(O_CREAT, 3, Err(VfsError::DeviceIO)), Err(OpenError::Vfs(VfsError::DeviceIO)));
}

#[test]
fn initial_stack_frame_layout() {
    let top = 0x3f_fff0u64;
    let st = initial_stack_layout(top, &vec![4, 2]).unwrap();
    // Strings: "xx\0" highest, then "yyyy\0" below it.
    assert_eq!(st.string_addrs, vec![top - 8, top - 3]);
    // Frame: argc, two pointers, a null word: 32 bytes below the strings,
    // rounded down to 16.
    assert_eq!(st.sp, (top - 8 - 32) & !0xf);
    assert_eq!(st.frame, vec![2, top - 8, top - 3, 0]);
    let empty = initial_stack_layout(top, &vec![]).unwrap();
    assert_eq!(empty.frame, vec![0, 0]);
    assert_eq!(empty.sp, (top - 16) & !0xf);
}

#[test]
fn close_needs_an_open_descriptor() {
    let mut files = FileTable::init();
    assert_eq!(do_syscall_close(&mut files, 1), Ok(()));
    assert!(files.get_file(1).is_none());
    assert_eq!(do_syscall_close(&mut files, 1), Err(Error::Errno(Errno::EBadF)));
    assert_eq!(do_syscall_close(&mut files, 7), Err(Error::Errno(Errno::EBadF)));
    assert_eq!(syscall_return_value(Err(Error::Errno(Errno::EBadF))), -9);
}

fn leaf_flags(pt: &PageTable, va: u64) -> u64 {
    let idx = [(va >> 30) & 0x1ff, (va >> 21) & 0x1ff, (va >> 12) & 0x1ff];
    let Slot::Table(_, l1) = &pt.entries[idx[0] as usize] else { panic!("no level-1 table") };
    let Slot::Table(_, l0) = &l1.entries[idx[1] as usize] else { panic!("no level-0 table") };
    let Slot::Entry(e) = &l0.entries[idx[2] as usize] else { panic!("no leaf") };
    e.0 & 0xff
}

#[test]
fn applied_plan_maps_pages_and_lists_the_memory_work() {
    let fs = fs_with(&elf_image(ET_EXEC, 2));
    let plan = load_executable(&fs, b"/prog").unwrap();
    let mut mm = MemoryManager {
        root_pt: PageTable::empty(),
        regions: Vec::new(),
        kernel_stack: KernelStackRegion::empty(),
        start_brk: VirtAddr(0),
        brk: VirtAddr(0),
    };
    let mut pool = FramePool::new();
    for i in 0..11u64 {
        assert!(pool.add(PhysAddr::new(0x8000_0000 + i * 0x1000)));
    }
    let mut meta = PageMetadataTable::new();
    let work = apply_load_plan(&plan, &mut mm, &mut pool, &mut meta).unwrap();
    assert_eq!(
        work,
        vec![
            PageWork::Zero { frame: 0x8000_a000 },
            PageWork::Copy { to: 0x8000_a000, file_offset: 0, len: 0x180 },
            PageWork::Nothing,
            PageWork::Zero { frame: 0x8000_7000 },
            PageWork::Zero { frame: 0x8000_6000 },
            PageWork::Copy { to: 0x8000_af80, file_offset: 0x180, len: 0x80 },
            PageWork::Copy { to: 0x8000_7000, file_offset: 0x200, len: 0x80 },
        ]
    );
    assert_eq!(mm.brk, VirtAddr(0x13000));
    assert_eq!(mm.start_brk, VirtAddr(0x13000));
    assert_eq!(mm.translate(VirtAddr(0x12345)), Some(PhysAddr::new(0x8000_6345)));
    assert_eq!(mm.regions.len(), 3);
    assert_eq!(pool.len(), 6);
    // The page both segments share carries both sets of permissions; V, A
    // and D are set on every leaf.
    let vad = 1u64 | 64 | 128;
    assert_eq!(leaf_flags(&mm.root_pt, 0x10000), vad | (PTE_U | PTE_R | PTE_W | PTE_X) as u64);
    assert_eq!(leaf_flags(&mm.root_pt, 0x11000), vad | (PTE_U | PTE_R | PTE_W) as u64);
    // Mapping the same plan again is refused: its pages are taken.
    assert_eq!(
        apply_load_plan(&plan, &mut mm, &mut pool, &mut meta),
        Err(PlanFailure { step: 0, error: Error::InvalidArgs })
    );
}

#[test]
fn a_plan_stops_at_its_first_failing_step() {
    let mut mm = MemoryManager {
        root_pt: PageTable::empty(),
        regions: Vec::new(),
        kernel_stack: KernelStackRegion::empty(),
        start_brk: VirtAddr(0),
        brk: VirtAddr(0),
    };
    let mut pool = FramePool::new();
    for i in 0..3u64 {
        assert!(pool.add(PhysAddr::new(0x8000_0000 + i * 0x1000)));
    }
    let mut meta = PageMetadataTable::new();
    let rw = PTE_U | PTE_R | PTE_W;
    let plan = efiks::exec::LoadPlan {
        steps: vec![
            LoadStep::MapPage { va: 0x10000, flags: rw },
            LoadStep::Copy { file_offset: 0, vaddr: 0x10010, len: 4 },
            LoadStep::Copy { file_offset: 0, vaddr: 0x20000, len: 4 },
        ],
        brk: 0x11000,
        entry: 0x10000,
    };
    assert_eq!(
        apply_load_plan(&plan, &mut mm, &mut pool, &mut meta),
        Err(PlanFailure { step: 2, error: Error::Unmapped })
    );
    assert_eq!(mm.translate(VirtAddr(0x10010)), Some(PhysAddr::new(0x8000_2010)));
    assert_eq!(mm.brk, VirtAddr(0));
    let more = efiks::exec::LoadPlan {
        steps: vec![LoadStep::MapPage { va: 0x4000_0000, flags: rw }],
        brk: 0,
        entry: 0,
    };
    assert_eq!(
        apply_load_plan(&more, &mut mm, &mut pool, &mut meta),
        Err(PlanFailure { step: 0, error: Error::Oom })
    );
}
