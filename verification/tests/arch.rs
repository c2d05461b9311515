use lib::arch::gdt::{
    verify, verify_task_register, verify_user_segments, GlobalDescriptorTable, DescriptorTablePointer,
    GDT_KERNEL_CODE, GDT_KERNEL_DATA, GDT_USER_CODE, GDT_USER_DATA, TSS_SELECTOR,
};
use lib::arch::idt::{IdtEntry, InterruptDescriptorTable, IDT_ENTRIES};
use lib::arch::msr::{
    enable_syscall_extensions, init_syscall_msrs, make_star, syscall_extensions_enabled,
    syscall_kernel_cs, syscall_kernel_ss, sysret_user_cs, sysret_user_ss, verify_syscall_msrs,
    verify_syscall_selectors, SYSCALL_FMASK,
};
use lib::arch::pic::{
    disable_irq, enable_irq, end_of_interrupt, init_writes, irq_mask_port, mask_all_except_timer,
};
use lib::arch::pit;
use lib::arch::tss::{ist1_valid, size, TaskStateSegment, TSS_SIZE};
use lib::arch::user::{stack_physical_end, USER_STACK_SIZE};

#[test]
fn gdt_layout_and_tss_descriptor() {
    let mut gdt = GlobalDescriptorTable::new();
    assert_eq!(gdt.entries[0], 0);
    assert_eq!(gdt.entries[1], GDT_KERNEL_CODE);
    assert_eq!(gdt.entries[2], GDT_KERNEL_DATA);
    assert_eq!(gdt.entries[5], GDT_USER_DATA);
    assert_eq!(gdt.entries[6], GDT_USER_CODE);
    assert!(verify_user_segments(&gdt));

    gdt.install_tss(0x1234_5678_9ABC_DEF0);
    // limit 103, base split over the descriptor, access byte 0x89.
    assert_eq!(gdt.entries[3], 0x9A00_89BC_DEF0_0067);
    assert_eq!(gdt.entries[4], 0x1234_5678);

    let p = GlobalDescriptorTable::pointer(0x5000);
    assert_eq!(p.limit, 55);
    assert_eq!(p.base, 0x5000);
    assert!(verify(p, 0x5000));
    assert!(!verify(p, 0x6000));
    assert!(!verify(DescriptorTablePointer { limit: 54, base: 0x5000 }, 0x5000));
    assert!(verify_task_register(TSS_SELECTOR));
    assert!(!verify_task_register(0x10));
}

#[test]
fn idt_gates() {
    let mut e = IdtEntry::missing();
    e.set_handler_with_ist(0x1122_3344_5566_7788, 9);
    assert_eq!(e.offset_low, 0x7788);
    assert_eq!(e.offset_mid, 0x5566);
    assert_eq!(e.offset_high, 0x1122_3344);
    assert_eq!(e.selector, 0x08);
    assert_eq!(e.ist, 1);
    assert_eq!(e.attributes, 0x8E);

    let mut idt = InterruptDescriptorTable::new();
    assert_eq!(IDT_ENTRIES, 256);
    idt.set_handler(0x20, 0xABCD);
    assert_eq!(idt.entries[0x20].offset_low, 0xABCD);
    assert_eq!(idt.entries[0x20].ist, 0);
    assert_eq!(idt.entries[0x21].attributes, 0);
}

#[test]
fn msr_values() {
    assert_eq!(make_star(), 0x0020_0008_0000_0000);
    assert!(verify_syscall_selectors());
    assert_eq!(syscall_kernel_cs(), 0x08);
    assert_eq!(syscall_kernel_ss(), 0x10);
    assert_eq!(sysret_user_cs(), 0x33);
    assert_eq!(sysret_user_ss(), 0x2B);
    assert!(!syscall_extensions_enabled(0xD00));
    assert_eq!(enable_syscall_extensions(0xD00), Some(0xD01));
    assert_eq!(enable_syscall_extensions(0xD01), None);
    assert!(syscall_extensions_enabled(0xD01));

    let msrs = init_syscall_msrs(0xFFFF_8000_0010_0000);
    assert_eq!(msrs.fmask, SYSCALL_FMASK);
    assert!(verify_syscall_msrs(msrs, 0xFFFF_8000_0010_0000));
    assert!(!verify_syscall_msrs(msrs, 0x1000));
    let mut bad = msrs;
    bad.cstar = 1;
    assert!(!verify_syscall_msrs(bad, 0xFFFF_8000_0010_0000));
}

#[test]
fn pic_programming() {
    let writes = init_writes(0xFE, 0xFF);
    assert_eq!(writes.len(), 20);
    assert_eq!(writes[0], (0x20, 0x11));
    assert_eq!(writes[1], (0x80, 0));
    assert_eq!(writes[4], (0x21, 32));
    assert_eq!(writes[6], (0xA1, 40));
    assert_eq!(writes[18], (0x21, 0xFE));
    assert_eq!(writes[19], (0xA1, 0xFF));
    assert_eq!(mask_all_except_timer(), [(0x21, 0xFE), (0xA1, 0xFF)]);
    assert_eq!(irq_mask_port(0), Some(0x21));
    assert_eq!(irq_mask_port(9), Some(0xA1));
    assert_eq!(irq_mask_port(16), None);
    assert_eq!(enable_irq(1, 0xFF), 0xFD);
    assert_eq!(enable_irq(9, 0xFF), 0xFD);
    assert_eq!(disable_irq(0, 0xFE), 0xFF);
    assert_eq!(end_of_interrupt(0), vec![(0x20, 0x20)]);
    assert_eq!(end_of_interrupt(12), vec![(0xA0, 0x20), (0x20, 0x20)]);
}

#[test]
fn pit_programming() {
    assert_eq!(pit::frequency(), 100);
    // 1_193_182 / 100 = 11931 = 0x2E9B.
    assert_eq!(pit::init_writes(), [(0x43, 0x36), (0x40, 0x9B), (0x40, 0x2E)]);
}

#[test]
fn tss_setup() {
    let mut tss = TaskStateSegment::new();
    assert_eq!(size(), TSS_SIZE);
    assert_eq!(TSS_SIZE, 104);
    tss.init(0x9000);
    assert_eq!(tss.ist1, 0x9000 + 16384);
    assert_eq!(tss.iomap_base as usize, TSS_SIZE);
    assert!(ist1_valid(tss.ist1));
    assert!(!ist1_valid(0));
    tss.set_rsp0(0x7000);
    assert_eq!(tss.rsp0(), 0x7000);
    assert_eq!(tss.ist1, 0x9000 + 16384);
}

#[test]
fn user_stack_end() {
    assert_eq!(stack_physical_end(0x30_0000), 0x30_0000 + USER_STACK_SIZE as u64);
}
