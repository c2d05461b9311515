# Unbound kernel core, verified

The logic of the Unbound OS kernel and its disk image builder, written in
Verus and proved against its contracts.

- `src/` is the verified library:
  - `objects`: generation-checked kernel object handles and the object table;
  - `ipc`: fixed-size messages and endpoints with bounded FIFO queues;
  - `memory`: the physical frame allocator, four-level page tables held as a
    map from frame address to table, address spaces and the kernel heap;
  - `scheduler`: tasks, their stack frames, the run queue and the
    round-robin scheduler with its timer-interrupt decisions;
  - `arch`: GDT/TSS/IDT encodings, MSR values, PIC and PIT programming;
  - `boot_info`, `syscall`, `console`, `image`: the boot handoff checks, the
    syscall dispatcher, hex formatting for the serial console, and the disk
    image layout.
- `tests/` exercises the library on concrete values.
- `app/` is the image builder's `main` (file I/O) and the kernel's hardware
  glue: port and MSR access, descriptor-table loads, interrupt stubs, and
  copying the page tables into physical frames before loading CR3.
