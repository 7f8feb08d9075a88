//! HXNU kernel core logic: block devices, FAT and tmpfs file systems,
//! page compression and storage, ACPI table parsing, CPU feature decoding,
//! the syscall-side bookkeeping and the heterogeneous task queue.
use vstd::prelude::*;

pub mod accel;
pub mod acpi;
pub mod ap_boot;
pub mod apic;
pub mod bga;
pub mod block;
pub mod bytes;
pub mod compress;
pub mod context;
pub mod cpuid;
pub mod cpuid_query;
pub mod devfs;
pub mod early_map;
pub mod fat;
pub mod gboot;
pub mod gdt;
pub mod handover;
pub mod hsched;
pub mod init_exec;
pub mod lcl;
pub mod live_update;
pub mod module_loader;
pub mod neoio;
pub mod pcie_ep;
pub mod percpu;
pub mod secinter;
pub mod serial;
pub mod slice_writer;
pub mod smp;
pub mod speaker;
pub mod store;
pub mod supernova;
pub mod syscall;
pub mod text;
pub mod tmpfs;
pub mod topkapi;
pub mod tty;
pub mod vector;
pub mod vmm;

verus! {

} // verus! // verus!
