//! Verified core of the Proka kernel and its file system.

pub mod color;
pub mod rtc;
pub mod text;
pub mod bytes;
pub mod pkfs;
pub mod drivers;
pub mod ipc;
pub mod fs;
pub mod graphics;
pub mod shell;
pub mod vmm;
pub mod paging;
pub mod pci;
pub mod buddy;
pub mod frame;
pub mod keyboard;
pub mod acpi;
pub mod interrupts;
pub mod time;
pub mod bitset;
pub mod mmio;
pub mod panic_screen;
pub mod console;

