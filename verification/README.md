# proka_kernel

The logic of a small x86_64 hobby kernel and of its on-disk file system,
written in Verus. The functions in `src/` carry contracts that Verus proves,
and several properties that span calls are proved as public lemmas. The
exceptions are the few items marked `#[verifier::external_body]`: thin
wrappers around `ringbuf`, `pc_keyboard` and std, whose contracts are
trusted. Where a result comes from a device or another trait that users
implement, the contracts state what holds whatever it returned.

## Layout

- `src/` — the verified library.
  - `pkfs/` — the on-disk file system: superblock, 24-byte inodes, directory
    entries, block and inode maps, `mkdir`/`mkfile`; `pkfs::layout` holds the
    records as the image-making tool lays them out.
  - `fs/` — the virtual file system: an in-memory file system, the kernel's
    pseudo file system, a read-only FAT32 reader and path/name rules.
  - `drivers/` — device operations, device identities and the device tree,
    hardware resource bookkeeping.
  - `buddy`, `frame`, `paging`, `vmm`, `bitset`, `mmio` — physical frames,
    page tables, kernel memory mappings.
  - `interrupts`, `acpi`, `time` — APIC configuration, IRQ routing and
    statistics, timer arithmetic.
  - `graphics`, `color`, `console`, `panic_screen`, `text` — the framebuffer
    renderer, colours, ANSI escape handling and the panic screen.
  - `keyboard`, `shell`, `ipc`, `pci`, `rtc`, `bytes` — keyboard state, the
    shell's command language, message queues, PCI decoding, calendar and CMOS
    register arithmetic, byte encodings.
- `tests/` — tests on concrete values, run against the compiled library.
- `app/` — what runs on the machine: port and MMIO access, the boot sequence,
  the interrupt entry points and the shell loop. It hands the library plain
  values and acts on what comes back.
