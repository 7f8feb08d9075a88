# hxnu

The core logic of the HXNU kernel as a library whose behaviour is stated in Verus
contracts and proved: block devices and their MBR/GPT partitions, FAT16/32 and tmpfs
file systems, page compression and the compressed page store, early page tables, ACPI
table discovery, CPUID decoding, the system-call layer's bookkeeping, the compatibility
(LCL) message queue, the heterogeneous task ring, the AP bring-up and PCIe endpoint step
machines, and the G-BOOT hand-over plan.

## Layout

- `src/`: the verified library, one module per subsystem. Work that touches hardware
  or user memory is split: a module decides, from plain values, what to do and what the
  result is, and the caller performs the action and reports back (the AP bring-up, the
  PCIe endpoint and the system calls work this way).
- `tests/`: ordinary Rust tests run against the compiled library.
- `app/`: the kernel program around the library: argument handling, the simulated
  machine (console, user memory, MSRs, port I/O), and the loops that carry out what the
  step machines ask for.

The only calls into code that Verus does not check are a few functions of Rust's
standard library (UTF-8 decoding, `char::from_u32`, and the CPUID instruction); each
stands behind a small wrapper whose contract says what is assumed of it.
