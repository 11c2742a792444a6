//! A CHIP-8 virtual machine: memory, register file, call stack, timers,
//! keypad and framebuffer, together with the fetch-decode-execute cycle for
//! the full instruction set. Every instruction is specified by a transition
//! relation on machine states, and the interpreter is verified against it.

pub mod cpu;
pub mod emulators;
pub mod laws;
