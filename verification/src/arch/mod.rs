//! x86_64 descriptor encodings, MSR values, interrupt controller and timer
//! programming, and interrupt frame validation.
pub mod gdt;
pub mod idt;
pub mod msr;
pub mod pic;
pub mod pit;
pub mod tss;
pub mod user;
