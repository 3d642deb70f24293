# efiks

The verified core of a small RISC-V (Sv39) kernel, written in Verus.

`src/` holds the kernel's logic with its contracts and proofs:

- addresses, page-table entries and the Sv39 page-table tree (`addr`, `pte`,
  `page_table`, `kvm`, `page_meta`): mapping, remapping, translation,
  copy-on-write, fork and freeing of page tables;
- memory management per task (`mm`, `address_space`): regions, program break,
  page-fault decisions and service, user and kernel stacks;
- the kernel heap's first-fit allocator (`kmalloc`);
- tasks and scheduling (`task`, `task_table`, `task_life`, `sched`,
  `sleeping`, `trap`): run queues, time slices, sleeping, blocking, exit and
  reaping, waiting for children, the trap frame;
- system calls (`syscall`, `user_stack`, `file_table`): decoding, return
  values, `open`'s decision, `close`, the initial user stack;
- the VSFS file system (`vsfs`, `vsfs_laws`) and the kernel's file layer over
  it (`vfs`), and the ELF loader (`exec`, which parses headers with the `elf`
  crate, plans the loading and maps the planned pages).

`app/` is a hosted program around the library: it mounts a VSFS image from a
file, loads a program, fills the mapped frames and the user stack in
simulated physical memory, and serves a few traps (a timer tick, a system
call).

`tests/` exercises the library on concrete values.
