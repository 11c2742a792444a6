//! Early machine-state records kept alongside the processor: a bare CHIP-8
//! state block and a placeholder for other emulated machines.

use vstd::prelude::*;
use crate::cpu::{zero_bytes, zero_words};

verus! {

/// A bare CHIP-8 state block: the same registers, memory and peripherals as
/// [`crate::cpu::Cpu`], without the interpreter attached.
pub struct Chip8 {
    pub current_opcode: u16,
    pub memory: Vec<u8>,
    pub cpu_registers: Vec<u8>,
    pub index_register: u16,
    pub program_counter: u16,
    pub execution_stack: Vec<u16>,
    pub stack_pointer: u8,
    pub delay_timer: u8,
    pub sound_timer: u8,
    pub keypad: Vec<u8>,
    pub graphics: Vec<u32>,
}

/// Placeholder for an NES machine state; nothing of it is modelled yet.
pub struct Nes {}

impl Chip8 {
    /// Copy a program image into memory starting at 0x200. The caller
    /// hands over the bytes; reading them from storage is the front end's
    /// job. The image must fit the 3584 bytes of program space.
    #[allow(non_snake_case)]
    pub fn load_ROM(&mut self, bytes: &Vec<u8>)
        requires
            old(self).memory@.len() == 4096,
            bytes@.len() <= 3584,
        ensures
            final(self).memory@.len() == 4096,
            forall|j: int|
                0x200 <= j < 0x200 + bytes@.len()
                    ==> final(self).memory@[j] == bytes@[j - 0x200],
            forall|j: int|
                0 <= j < 4096 && !(0x200 <= j < 0x200 + bytes@.len())
                    ==> final(self).memory@[j] == old(self).memory@[j],
            final(self).current_opcode == old(self).current_opcode,
            final(self).cpu_registers@ == old(self).cpu_registers@,
            final(self).index_register == old(self).index_register,
            final(self).program_counter == old(self).program_counter,
            final(self).execution_stack@ == old(self).execution_stack@,
            final(self).stack_pointer == old(self).stack_pointer,
            final(self).delay_timer == old(self).delay_timer,
            final(self).sound_timer == old(self).sound_timer,
            final(self).keypad@ == old(self).keypad@,
            final(self).graphics@ == old(self).graphics@,
    {
        let mut i: usize = 0;
        while i < bytes.len()
            invariant
                self.memory@.len() == 4096,
                i <= bytes@.len(),
                bytes@.len() <= 3584,
                forall|j: int|
                    0x200 <= j < 0x200 + i ==> self.memory@[j] == bytes@[j - 0x200],
                forall|j: int|
                    0 <= j < 4096 && !(0x200 <= j < 0x200 + i) ==> self.memory@[j] == old(
                        self,
                    ).memory@[j],
                self.current_opcode == old(self).current_opcode,
                self.cpu_registers@ == old(self).cpu_registers@,
                self.index_register == old(self).index_register,
                self.program_counter == old(self).program_counter,
                self.execution_stack@ == old(self).execution_stack@,
                self.stack_pointer == old(self).stack_pointer,
                self.delay_timer == old(self).delay_timer,
                self.sound_timer == old(self).sound_timer,
                self.keypad@ == old(self).keypad@,
                self.graphics@ == old(self).graphics@,
            decreases bytes@.len() - i,
        {
            let b = bytes[i];
            self.memory.set(0x200 + i, b);
            i = i + 1;
        }
    }
}

/// A zeroed CHIP-8 state block: all arrays at their fixed sizes with every
/// entry zero, and every scalar register zero.
pub fn initialize_chip_8() -> (c: Chip8)
    ensures
        c.memory@ == Seq::new(4096, |i: int| 0u8),
        c.cpu_registers@ == Seq::new(16, |i: int| 0u8),
        c.execution_stack@ == Seq::new(16, |i: int| 0u16),
        c.keypad@ == Seq::new(16, |i: int| 0u8),
        c.graphics@ == Seq::new(2048, |i: int| 0u32),
        c.current_opcode == 0,
        c.index_register == 0,
        c.program_counter == 0,
        c.stack_pointer == 0,
        c.delay_timer == 0,
        c.sound_timer == 0,
{
    Chip8 {
        current_opcode: 0,
        memory: zero_bytes(4096),
        cpu_registers: zero_bytes(16),
        index_register: 0,
        program_counter: 0,
        execution_stack: zero_words(16),
        stack_pointer: 0,
        delay_timer: 0,
        sound_timer: 0,
        keypad: zero_bytes(16),
        graphics: zero_pixels(2048),
    }
}

/// A vector of `n` zero 32-bit pixels.
fn zero_pixels(n: usize) -> (v: Vec<u32>)
    ensures
        v@ == Seq::new(n as nat, |i: int| 0u32),
{
    let mut v: Vec<u32> = Vec::new();
    let mut i: usize = 0;
    while i < n
        invariant
            i <= n,
            v@ =~= Seq::new(i as nat, |j: int| 0u32),
        decreases n - i,
    {
        v.push(0);
        i = i + 1;
    }
    proof {
        assert(v@ =~= Seq::new(n as nat, |i: int| 0u32));
    }
    v
}

} // verus!
