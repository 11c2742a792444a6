//! The CHIP-8 processor: machine state, instruction semantics, and the
//! fetch-decode-execute cycle.
//!
//! Every instruction handler `op_*` carries a contract phrased through a
//! `sem_*` spec function: a transition relation between the machine state
//! before and after the instruction. `cycle` composes fetching, dispatch and
//! the timer tick, and its contract (`cycle_rel`) pins down the whole step.
//!
//! Conventions fixed here, where the instruction set has historical variants:
//! the shift instructions `SHR`/`SHL` operate on `Vx` alone and ignore the
//! `y` field; the draw instruction wraps the start coordinates onto the
//! screen and clips sprite pixels that fall past the right or bottom edge;
//! the register-block store and load move registers `0..=x` inclusive.

use vstd::prelude::*;

verus! {

/// Screen width in pixels.
pub const VIDEO_WIDTH: usize = 64;

/// Screen height in pixels.
pub const VIDEO_HEIGHT: usize = 32;

/// Failure modes of loading or stepping the machine. Each `cycle` either
/// completes one whole instruction or reports one of these and leaves the
/// state at the point of failure.
#[derive(Clone, Copy, Debug, PartialEq, Eq, Structural)]
pub enum CpuError {
    /// The fetched bit pattern matches no instruction.
    UnknownOpcode,
    /// CALL with all sixteen stack slots in use.
    StackOverflow,
    /// RET with an empty call stack.
    StackUnderflow,
    /// A fetch or memory access past the 4096-byte address space.
    OutOfBounds,
    /// The program image does not fit between 0x200 and the end of memory.
    ProgramTooLarge,
}

/// The whole machine: 4096 bytes of memory, sixteen 8-bit registers, the
/// 16-bit index register and program counter, a sixteen-entry call stack,
/// two timers, the keypad state and the monochrome framebuffer.
///
/// The framebuffer is stored row-major: the pixel at `(row, col)` is
/// `graphics[row * 64 + col]`.
pub struct Cpu {
    pub current_opcode: u16,
    pub memory: Vec<u8>,
    pub cpu_registers: Vec<u8>,
    pub index_register: u16,
    pub program_counter: u16,
    pub execution_stack: Vec<u16>,
    pub stack_pointer: usize,
    pub delay_timer: u8,
    pub sound_timer: u8,
    pub keypad: Vec<bool>,
    pub graphics: Vec<bool>,
    pub can_draw: bool,
}

impl Cpu {
    /// Well-formedness: every array has its fixed size and the stack pointer
    /// stays within the sixteen stack slots.
    pub open spec fn wf(self) -> bool {
        &&& self.memory@.len() == 4096
        &&& self.cpu_registers@.len() == 16
        &&& self.execution_stack@.len() == 16
        &&& self.stack_pointer <= 16
        &&& self.keypad@.len() == 16
        &&& self.graphics@.len() == 2048
    }
}

/// Top nibble of an opcode (the primary dispatch key).
pub open spec fn nib3(w: u16) -> u16 {
    (w & 0xF000) >> 12u16
}

/// Second nibble of an opcode: the register field `x`.
pub open spec fn nib2(w: u16) -> u16 {
    (w & 0x0F00) >> 8u16
}

/// Third nibble of an opcode: the register field `y`.
pub open spec fn nib1(w: u16) -> u16 {
    (w & 0x00F0) >> 4u16
}

/// Low nibble of an opcode: the sprite height `n` or a secondary dispatch key.
pub open spec fn nib0(w: u16) -> u16 {
    w & 0x000F
}

/// Low byte of an opcode: the literal `kk`.
pub open spec fn kk_of(w: u16) -> u16 {
    w & 0x00FF
}

/// Low twelve bits of an opcode: the address `nnn`.
pub open spec fn nnn_of(w: u16) -> u16 {
    w & 0x0FFF
}

/// Ranges of the opcode fields: each nibble is below 16, `kk` is a byte and
/// `nnn` a 12-bit address.
pub proof fn lemma_opcode_fields(w: u16)
    by (bit_vector)
    ensures
        nib3(w) < 16,
        nib2(w) < 16,
        nib1(w) < 16,
        nib0(w) < 16,
        kk_of(w) < 256,
        nnn_of(w) < 4096,
{
}

/// 8-bit wraparound: the residue of `v` modulo 256, as a byte.
pub open spec fn wrap8(v: int) -> u8 {
    (v % 256) as u8
}

/// 16-bit wraparound: the residue of `v` modulo 65536, as a word.
pub open spec fn wrap16(v: int) -> u16 {
    (v % 65536) as u16
}

/// Modulo-256 wraparound written out for the three ranges the arithmetic
/// instructions produce: a sum below 256, a sum up to one overflow, and a
/// difference down to one borrow.
pub proof fn lemma_wrap8(v: int)
    requires
        -256 <= v < 512,
    ensures
        0 <= v < 256 ==> wrap8(v) == v,
        256 <= v ==> wrap8(v) == v - 256,
        v < 0 ==> wrap8(v) == v + 256,
{
    if 0 <= v < 256 {
        vstd::arithmetic::div_mod::lemma_fundamental_div_mod_converse(v, 256, 0, v);
    } else if 256 <= v {
        vstd::arithmetic::div_mod::lemma_fundamental_div_mod_converse(v, 256, 1, v - 256);
    } else {
        vstd::arithmetic::div_mod::lemma_fundamental_div_mod_converse(v, 256, -1, v + 256);
    }
}

/// The two machines hold the same memory contents.
pub open spec fn eq_mem(a: Cpu, b: Cpu) -> bool {
    a.memory@ == b.memory@
}

/// The two machines hold the same register file.
pub open spec fn eq_regs(a: Cpu, b: Cpu) -> bool {
    a.cpu_registers@ == b.cpu_registers@
}

/// The two machines hold the same index register.
pub open spec fn eq_index(a: Cpu, b: Cpu) -> bool {
    a.index_register == b.index_register
}

/// The two machines hold the same program counter.
pub open spec fn eq_pc(a: Cpu, b: Cpu) -> bool {
    a.program_counter == b.program_counter
}

/// The two machines hold the same call stack and stack pointer.
pub open spec fn eq_stack(a: Cpu, b: Cpu) -> bool {
    a.execution_stack@ == b.execution_stack@ && a.stack_pointer == b.stack_pointer
}

/// The two machines hold the same delay and sound timers.
pub open spec fn eq_timers(a: Cpu, b: Cpu) -> bool {
    a.delay_timer == b.delay_timer && a.sound_timer == b.sound_timer
}

/// The two machines hold the same keypad state.
pub open spec fn eq_keypad(a: Cpu, b: Cpu) -> bool {
    a.keypad@ == b.keypad@
}

/// The two machines hold the same framebuffer and redraw flag.
pub open spec fn eq_screen(a: Cpu, b: Cpu) -> bool {
    a.graphics@ == b.graphics@ && a.can_draw == b.can_draw
}

/// The two machines hold the same current opcode.
pub open spec fn eq_opcode(a: Cpu, b: Cpu) -> bool {
    a.current_opcode == b.current_opcode
}

/// The two machines are in the same state, component for component.
pub open spec fn state_eq(a: Cpu, b: Cpu) -> bool {
    &&& eq_mem(a, b)
    &&& eq_regs(a, b)
    &&& eq_index(a, b)
    &&& eq_pc(a, b)
    &&& eq_stack(a, b)
    &&& eq_timers(a, b)
    &&& eq_keypad(a, b)
    &&& eq_screen(a, b)
    &&& eq_opcode(a, b)
}

/// The opcode encoded by the two memory bytes at the program counter:
/// high byte first.
pub open spec fn fetched(c: Cpu) -> u16 {
    ((c.memory@[c.program_counter as int] as u16) << 8u16) | (c.memory@[
        c.program_counter as int + 1
    ] as u16)
}

/// One timer tick: each of the two timers decrements if it is above zero
/// and stays at zero otherwise; nothing else moves.
pub open spec fn sem_tick(pre: Cpu, post: Cpu) -> bool {
    &&& post.delay_timer == (if pre.delay_timer > 0 {
        (pre.delay_timer - 1) as u8
    } else {
        0u8
    })
    &&& post.sound_timer == (if pre.sound_timer > 0 {
        (pre.sound_timer - 1) as u8
    } else {
        0u8
    })
    &&& eq_mem(pre, post)
    &&& eq_regs(pre, post)
    &&& eq_index(pre, post)
    &&& eq_pc(pre, post)
    &&& eq_stack(pre, post)
    &&& eq_keypad(pre, post)
    &&& eq_screen(pre, post)
    &&& eq_opcode(pre, post)
}

/// Everything but the register file is as before.
pub open spec fn only_regs_changed(pre: Cpu, post: Cpu) -> bool {
    &&& eq_mem(pre, post)
    &&& eq_index(pre, post)
    &&& eq_pc(pre, post)
    &&& eq_stack(pre, post)
    &&& eq_timers(pre, post)
    &&& eq_keypad(pre, post)
    &&& eq_screen(pre, post)
    &&& eq_opcode(pre, post)
}

/// Everything but the program counter is as before.
pub open spec fn only_pc_changed(pre: Cpu, post: Cpu) -> bool {
    &&& eq_mem(pre, post)
    &&& eq_regs(pre, post)
    &&& eq_index(pre, post)
    &&& eq_stack(pre, post)
    &&& eq_timers(pre, post)
    &&& eq_keypad(pre, post)
    &&& eq_screen(pre, post)
    &&& eq_opcode(pre, post)
}

/// Everything but the index register is as before.
pub open spec fn only_index_changed(pre: Cpu, post: Cpu) -> bool {
    &&& eq_mem(pre, post)
    &&& eq_regs(pre, post)
    &&& eq_pc(pre, post)
    &&& eq_stack(pre, post)
    &&& eq_timers(pre, post)
    &&& eq_keypad(pre, post)
    &&& eq_screen(pre, post)
    &&& eq_opcode(pre, post)
}

/// Everything but memory is as before.
pub open spec fn only_mem_changed(pre: Cpu, post: Cpu) -> bool {
    &&& eq_regs(pre, post)
    &&& eq_index(pre, post)
    &&& eq_pc(pre, post)
    &&& eq_stack(pre, post)
    &&& eq_timers(pre, post)
    &&& eq_keypad(pre, post)
    &&& eq_screen(pre, post)
    &&& eq_opcode(pre, post)
}

/// A conditional skip: the program counter moves past the next instruction
/// when `cond` holds and stays put otherwise; nothing else moves.
pub open spec fn skip_if(pre: Cpu, post: Cpu, cond: bool) -> bool {
    &&& post.program_counter == (if cond {
        (pre.program_counter + 2) as u16
    } else {
        pre.program_counter
    })
    &&& only_pc_changed(pre, post)
}

/// CLS: the framebuffer goes all dark and the redraw flag is raised.
pub open spec fn sem_cls(pre: Cpu, post: Cpu) -> bool {
    &&& post.graphics@ == Seq::new(2048, |i: int| false)
    &&& post.can_draw == true
    &&& eq_mem(pre, post)
    &&& eq_regs(pre, post)
    &&& eq_index(pre, post)
    &&& eq_pc(pre, post)
    &&& eq_stack(pre, post)
    &&& eq_timers(pre, post)
    &&& eq_keypad(pre, post)
    &&& eq_opcode(pre, post)
}

/// RET: pop the top return address into the program counter; with an empty
/// stack the instruction fails with `StackUnderflow` and changes nothing.
pub open spec fn sem_ret(pre: Cpu, post: Cpu, r: Result<(), CpuError>) -> bool {
    if pre.stack_pointer == 0 {
        r == Err::<(), CpuError>(CpuError::StackUnderflow) && state_eq(pre, post)
    } else {
        &&& r is Ok
        &&& post.stack_pointer == pre.stack_pointer - 1
        &&& post.execution_stack@ == pre.execution_stack@
        &&& post.program_counter == pre.execution_stack@[pre.stack_pointer - 1]
        &&& eq_mem(pre, post)
        &&& eq_regs(pre, post)
        &&& eq_index(pre, post)
        &&& eq_timers(pre, post)
        &&& eq_keypad(pre, post)
        &&& eq_screen(pre, post)
        &&& eq_opcode(pre, post)
    }
}

/// JP addr: the program counter becomes `nnn`.
pub open spec fn sem_jp(pre: Cpu, post: Cpu) -> bool {
    &&& post.program_counter == nnn_of(pre.current_opcode)
    &&& only_pc_changed(pre, post)
}

/// CALL addr: push the current (post-fetch) program counter and jump to
/// `nnn`; with all sixteen slots in use the instruction fails with
/// `StackOverflow` and changes nothing.
pub open spec fn sem_call(pre: Cpu, post: Cpu, r: Result<(), CpuError>) -> bool {
    if pre.stack_pointer < 16 {
        &&& r is Ok
        &&& post.execution_stack@ == pre.execution_stack@.update(
            pre.stack_pointer as int,
            pre.program_counter,
        )
        &&& post.stack_pointer == pre.stack_pointer + 1
        &&& post.program_counter == nnn_of(pre.current_opcode)
        &&& eq_mem(pre, post)
        &&& eq_regs(pre, post)
        &&& eq_index(pre, post)
        &&& eq_timers(pre, post)
        &&& eq_keypad(pre, post)
        &&& eq_screen(pre, post)
        &&& eq_opcode(pre, post)
    } else {
        r == Err::<(), CpuError>(CpuError::StackOverflow) && state_eq(pre, post)
    }
}

/// SE Vx, kk: skip when `Vx == kk`.
pub open spec fn sem_se_kk(pre: Cpu, post: Cpu) -> bool {
    skip_if(pre, post, pre.cpu_registers@[nib2(pre.current_opcode) as int] == kk_of(pre.current_opcode))
}

/// SNE Vx, kk: skip when `Vx != kk`.
pub open spec fn sem_sne_kk(pre: Cpu, post: Cpu) -> bool {
    skip_if(pre, post, pre.cpu_registers@[nib2(pre.current_opcode) as int] != kk_of(pre.current_opcode))
}

/// SE Vx, Vy: skip when `Vx == Vy`.
pub open spec fn sem_se_xy(pre: Cpu, post: Cpu) -> bool {
    skip_if(
        pre,
        post,
        pre.cpu_registers@[nib2(pre.current_opcode) as int] == pre.cpu_registers@[nib1(
            pre.current_opcode,
        ) as int],
    )
}

/// SNE Vx, Vy: skip when `Vx != Vy`.
pub open spec fn sem_sne_xy(pre: Cpu, post: Cpu) -> bool {
    skip_if(
        pre,
        post,
        pre.cpu_registers@[nib2(pre.current_opcode) as int] != pre.cpu_registers@[nib1(
            pre.current_opcode,
        ) as int],
    )
}

/// LD Vx, kk: `Vx` becomes the literal byte.
pub open spec fn sem_ld_kk(pre: Cpu, post: Cpu) -> bool {
    &&& post.cpu_registers@ == pre.cpu_registers@.update(
        nib2(pre.current_opcode) as int,
        kk_of(pre.current_opcode) as u8,
    )
    &&& only_regs_changed(pre, post)
}

/// ADD Vx, kk: `Vx` becomes `(Vx + kk) mod 256`; no flag is touched.
pub open spec fn sem_add_kk(pre: Cpu, post: Cpu) -> bool {
    let x = nib2(pre.current_opcode) as int;
    &&& post.cpu_registers@ == pre.cpu_registers@.update(
        x,
        wrap8(pre.cpu_registers@[x] + kk_of(pre.current_opcode)),
    )
    &&& only_regs_changed(pre, post)
}

/// LD Vx, Vy: `Vx` becomes `Vy`.
pub open spec fn sem_ld_xy(pre: Cpu, post: Cpu) -> bool {
    let x = nib2(pre.current_opcode) as int;
    let y = nib1(pre.current_opcode) as int;
    &&& post.cpu_registers@ == pre.cpu_registers@.update(x, pre.cpu_registers@[y])
    &&& only_regs_changed(pre, post)
}

/// OR Vx, Vy: bitwise or into `Vx`.
pub open spec fn sem_or(pre: Cpu, post: Cpu) -> bool {
    let x = nib2(pre.current_opcode) as int;
    let y = nib1(pre.current_opcode) as int;
    &&& post.cpu_registers@ == pre.cpu_registers@.update(
        x,
        pre.cpu_registers@[x] | pre.cpu_registers@[y],
    )
    &&& only_regs_changed(pre, post)
}

/// AND Vx, Vy: bitwise and into `Vx`.
pub open spec fn sem_and(pre: Cpu, post: Cpu) -> bool {
    let x = nib2(pre.current_opcode) as int;
    let y = nib1(pre.current_opcode) as int;
    &&& post.cpu_registers@ == pre.cpu_registers@.update(
        x,
        pre.cpu_registers@[x] & pre.cpu_registers@[y],
    )
    &&& only_regs_changed(pre, post)
}

/// XOR Vx, Vy: bitwise exclusive or into `Vx`.
pub open spec fn sem_xor(pre: Cpu, post: Cpu) -> bool {
    let x = nib2(pre.current_opcode) as int;
    let y = nib1(pre.current_opcode) as int;
    &&& post.cpu_registers@ == pre.cpu_registers@.update(
        x,
        pre.cpu_registers@[x] ^ pre.cpu_registers@[y],
    )
    &&& only_regs_changed(pre, post)
}

/// ADD Vx, Vy: the flag register records the carry, then `Vx` takes the
/// wrapped sum. (When `x` is the flag register itself, the sum wins.)
pub open spec fn sem_add_xy(pre: Cpu, post: Cpu) -> bool {
    let x = nib2(pre.current_opcode) as int;
    let y = nib1(pre.current_opcode) as int;
    let sum = pre.cpu_registers@[x] + pre.cpu_registers@[y];
    &&& post.cpu_registers@ == pre.cpu_registers@.update(
        15,
        if sum > 255 {
            1u8
        } else {
            0u8
        },
    ).update(x, wrap8(sum))
    &&& only_regs_changed(pre, post)
}

/// SUB Vx, Vy: the flag register records `Vx > Vy` (no borrow), then `Vx`
/// takes the wrapped difference of the original values.
pub open spec fn sem_sub_xy(pre: Cpu, post: Cpu) -> bool {
    let x = nib2(pre.current_opcode) as int;
    let y = nib1(pre.current_opcode) as int;
    let vx = pre.cpu_registers@[x];
    let vy = pre.cpu_registers@[y];
    &&& post.cpu_registers@ == pre.cpu_registers@.update(
        15,
        if vx > vy {
            1u8
        } else {
            0u8
        },
    ).update(x, wrap8(vx - vy))
    &&& only_regs_changed(pre, post)
}

/// SUBN Vx, Vy: the flag register records `Vy > Vx`, then `Vx` takes the
/// wrapped difference `Vy - Vx` of the original values.
pub open spec fn sem_subn_xy(pre: Cpu, post: Cpu) -> bool {
    let x = nib2(pre.current_opcode) as int;
    let y = nib1(pre.current_opcode) as int;
    let vx = pre.cpu_registers@[x];
    let vy = pre.cpu_registers@[y];
    &&& post.cpu_registers@ == pre.cpu_registers@.update(
        15,
        if vy > vx {
            1u8
        } else {
            0u8
        },
    ).update(x, wrap8(vy - vx))
    &&& only_regs_changed(pre, post)
}

/// SHR Vx: the flag register captures the low bit, then `Vx` is halved.
/// The `y` field of the opcode is ignored.
pub open spec fn sem_shr(pre: Cpu, post: Cpu) -> bool {
    let x = nib2(pre.current_opcode) as int;
    let vx = pre.cpu_registers@[x];
    &&& post.cpu_registers@ == pre.cpu_registers@.update(15, (vx % 2) as u8).update(
        x,
        (vx / 2) as u8,
    )
    &&& only_regs_changed(pre, post)
}

/// SHL Vx: the flag register captures the high bit, then `Vx` is doubled
/// modulo 256. The `y` field of the opcode is ignored.
pub open spec fn sem_shl(pre: Cpu, post: Cpu) -> bool {
    let x = nib2(pre.current_opcode) as int;
    let vx = pre.cpu_registers@[x];
    &&& post.cpu_registers@ == pre.cpu_registers@.update(
        15,
        if vx >= 128 {
            1u8
        } else {
            0u8
        },
    ).update(x, wrap8(2 * vx))
    &&& only_regs_changed(pre, post)
}

/// LD I, addr: the index register becomes `nnn`.
pub open spec fn sem_ld_i(pre: Cpu, post: Cpu) -> bool {
    &&& post.index_register == nnn_of(pre.current_opcode)
    &&& only_index_changed(pre, post)
}

/// JP V0, addr: the program counter becomes `V0 + nnn`.
pub open spec fn sem_jp_v0(pre: Cpu, post: Cpu) -> bool {
    &&& post.program_counter == (pre.cpu_registers@[0] + nnn_of(pre.current_opcode)) as u16
    &&& only_pc_changed(pre, post)
}

/// RND Vx, kk: `Vx` becomes the literal byte masked with some byte; which
/// byte came from the generator is not determined.
pub open spec fn sem_rnd(pre: Cpu, post: Cpu) -> bool {
    let x = nib2(pre.current_opcode) as int;
    &&& exists|b: u8|
        post.cpu_registers@ == pre.cpu_registers@.update(
            x,
            #[trigger] ((kk_of(pre.current_opcode) as u8) & b),
        )
    &&& only_regs_changed(pre, post)
}

/// SKP Vx: skip when the key numbered `Vx` (taken modulo 16) is pressed.
pub open spec fn sem_skp(pre: Cpu, post: Cpu) -> bool {
    let key = pre.cpu_registers@[nib2(pre.current_opcode) as int] as int % 16;
    skip_if(pre, post, pre.keypad@[key])
}

/// SKNP Vx: skip when the key numbered `Vx` (taken modulo 16) is not
/// pressed.
pub open spec fn sem_sknp(pre: Cpu, post: Cpu) -> bool {
    let key = pre.cpu_registers@[nib2(pre.current_opcode) as int] as int % 16;
    skip_if(pre, post, !pre.keypad@[key])
}

/// LD Vx, DT: `Vx` becomes the delay timer.
pub open spec fn sem_ld_dt(pre: Cpu, post: Cpu) -> bool {
    &&& post.cpu_registers@ == pre.cpu_registers@.update(
        nib2(pre.current_opcode) as int,
        pre.delay_timer,
    )
    &&& only_regs_changed(pre, post)
}

/// LD Vx, K: with some key pressed, `Vx` becomes the lowest pressed key's
/// index and execution proceeds; with none pressed, the program counter
/// steps back over this instruction so the next cycle re-executes it.
pub open spec fn sem_wait_key(pre: Cpu, post: Cpu) -> bool {
    if exists|k: int| 0 <= k < 16 && pre.keypad@[k] {
        exists|k: int|
            {
                &&& 0 <= k < 16
                &&& pre.keypad@[k]
                &&& forall|j: int| 0 <= j < k ==> !pre.keypad@[j]
                &&& post.cpu_registers@ == pre.cpu_registers@.update(
                    nib2(pre.current_opcode) as int,
                    k as u8,
                )
                &&& only_regs_changed(pre, post)
            }
    } else {
        &&& post.program_counter == (pre.program_counter - 2) as u16
        &&& only_pc_changed(pre, post)
    }
}

/// LD DT, Vx: the delay timer becomes `Vx`.
pub open spec fn sem_set_dt(pre: Cpu, post: Cpu) -> bool {
    &&& post.delay_timer == pre.cpu_registers@[nib2(pre.current_opcode) as int]
    &&& post.sound_timer == pre.sound_timer
    &&& eq_mem(pre, post)
    &&& eq_regs(pre, post)
    &&& eq_index(pre, post)
    &&& eq_pc(pre, post)
    &&& eq_stack(pre, post)
    &&& eq_keypad(pre, post)
    &&& eq_screen(pre, post)
    &&& eq_opcode(pre, post)
}

/// LD ST, Vx: the sound timer becomes `Vx`.
pub open spec fn sem_set_st(pre: Cpu, post: Cpu) -> bool {
    &&& post.sound_timer == pre.cpu_registers@[nib2(pre.current_opcode) as int]
    &&& post.delay_timer == pre.delay_timer
    &&& eq_mem(pre, post)
    &&& eq_regs(pre, post)
    &&& eq_index(pre, post)
    &&& eq_pc(pre, post)
    &&& eq_stack(pre, post)
    &&& eq_keypad(pre, post)
    &&& eq_screen(pre, post)
    &&& eq_opcode(pre, post)
}

/// ADD I, Vx: the index register takes the 16-bit wrapped sum.
pub open spec fn sem_add_i(pre: Cpu, post: Cpu) -> bool {
    &&& post.index_register == wrap16(
        pre.index_register + pre.cpu_registers@[nib2(pre.current_opcode) as int],
    )
    &&& only_index_changed(pre, post)
}

/// LD F, Vx: the index register points at the five-byte glyph sprite for
/// the digit in `Vx`.
pub open spec fn sem_font(pre: Cpu, post: Cpu) -> bool {
    &&& post.index_register == 0x50 + 5 * pre.cpu_registers@[nib2(pre.current_opcode) as int]
    &&& only_index_changed(pre, post)
}

/// LD B, Vx: the three decimal digits of `Vx` go to memory at the index
/// register; an access past the end of memory fails with `OutOfBounds` and
/// changes nothing.
pub open spec fn sem_bcd(pre: Cpu, post: Cpu, r: Result<(), CpuError>) -> bool {
    let idx = pre.index_register as int;
    let vx = pre.cpu_registers@[nib2(pre.current_opcode) as int];
    if idx + 2 < 4096 {
        &&& r is Ok
        &&& post.memory@ == pre.memory@.update(idx, (vx / 100) as u8).update(
            idx + 1,
            ((vx / 10) % 10) as u8,
        ).update(idx + 2, (vx % 10) as u8)
        &&& only_mem_changed(pre, post)
    } else {
        r == Err::<(), CpuError>(CpuError::OutOfBounds) && state_eq(pre, post)
    }
}

/// LD [I], Vx: registers 0 through `x` inclusive go to memory starting at
/// the index register; an access past the end of memory fails with
/// `OutOfBounds` and changes nothing.
pub open spec fn sem_store_regs(pre: Cpu, post: Cpu, r: Result<(), CpuError>) -> bool {
    let x = nib2(pre.current_opcode) as int;
    let idx = pre.index_register as int;
    if idx + x < 4096 {
        &&& r is Ok
        &&& post.memory@.len() == pre.memory@.len()
        &&& forall|j: int|
            0 <= j < pre.memory@.len() ==> post.memory@[j] == (if idx <= j <= idx + x {
                pre.cpu_registers@[j - idx]
            } else {
                pre.memory@[j]
            })
        &&& only_mem_changed(pre, post)
    } else {
        r == Err::<(), CpuError>(CpuError::OutOfBounds) && state_eq(pre, post)
    }
}

/// LD Vx, [I]: registers 0 through `x` inclusive are loaded from memory
/// starting at the index register; an access past the end of memory fails
/// with `OutOfBounds` and changes nothing.
pub open spec fn sem_load_regs(pre: Cpu, post: Cpu, r: Result<(), CpuError>) -> bool {
    let x = nib2(pre.current_opcode) as int;
    let idx = pre.index_register as int;
    if idx + x < 4096 {
        &&& r is Ok
        &&& post.cpu_registers@.len() == pre.cpu_registers@.len()
        &&& forall|j: int|
            0 <= j < pre.cpu_registers@.len() ==> post.cpu_registers@[j] == (if j <= x {
                pre.memory@[idx + j]
            } else {
                pre.cpu_registers@[j]
            })
        &&& only_regs_changed(pre, post)
    } else {
        r == Err::<(), CpuError>(CpuError::OutOfBounds) && state_eq(pre, post)
    }
}

/// Whether bit `j` of a sprite byte is set, counting `j = 0` as the
/// leftmost (most significant) bit.
pub open spec fn sprite_bit(b: u8, j: int) -> bool {
    (b >> ((7 - j) as u8)) & 1u8 == 1
}

/// The framebuffer cell a sprite row `r`, bit `j` lands on when the sprite
/// is anchored at `(x0, y0)`: row-major position.
pub open spec fn pos_of(x0: int, y0: int, r: int, j: int) -> int {
    (y0 + r) * 64 + (x0 + j)
}

/// Lexicographic order on (row, bit) pairs: the pairs a row-by-row,
/// bit-by-bit walk has visited before reaching `(rl, jl)`.
pub open spec fn lex_before(r: int, j: int, rl: int, jl: int) -> bool {
    r < rl || (r == rl && j < jl)
}

/// Sprite row `r`, bit `j` paints a visible pixel: the bit is set and the
/// cell lies on screen (start coordinates are anchored, overhang is
/// clipped).
pub open spec fn covers_at(mem: Seq<u8>, idx: int, x0: int, y0: int, r: int, j: int) -> bool {
    &&& 0 <= r
    &&& 0 <= j < 8
    &&& y0 + r < 32
    &&& x0 + j < 64
    &&& sprite_bit(mem[idx + r], j)
}

/// Some sprite position visited before `(rl, jl)` paints the cell `p`.
pub open spec fn covers_lex(
    mem: Seq<u8>,
    idx: int,
    x0: int,
    y0: int,
    rl: int,
    jl: int,
    p: int,
) -> bool {
    exists|r: int, j: int|
        lex_before(r, j, rl, jl) && #[trigger] covers_at(mem, idx, x0, y0, r, j) && p == pos_of(
            x0,
            y0,
            r,
            j,
        )
}

/// Some sprite position visited before `(rl, jl)` paints a cell that is
/// already lit in `g`: a collision.
pub open spec fn collide_lex(
    g: Seq<bool>,
    mem: Seq<u8>,
    idx: int,
    x0: int,
    y0: int,
    rl: int,
    jl: int,
) -> bool {
    exists|r: int, j: int|
        lex_before(r, j, rl, jl) && #[trigger] covers_at(mem, idx, x0, y0, r, j) && g[pos_of(
            x0,
            y0,
            r,
            j,
        )]
}

/// The framebuffer after drawing an `n`-row sprite from `mem[idx..]`
/// anchored at `(x0, y0)`: each visible sprite bit toggles its cell.
pub open spec fn draw_result(
    g: Seq<bool>,
    mem: Seq<u8>,
    idx: int,
    x0: int,
    y0: int,
    n: int,
) -> Seq<bool> {
    Seq::new(2048, |p: int| g[p] != covers_lex(mem, idx, x0, y0, n, 0, p))
}

/// Whether drawing an `n`-row sprite from `mem[idx..]` anchored at
/// `(x0, y0)` toggles any cell of `g` from lit to dark.
pub open spec fn draw_collision(
    g: Seq<bool>,
    mem: Seq<u8>,
    idx: int,
    x0: int,
    y0: int,
    n: int,
) -> bool {
    collide_lex(g, mem, idx, x0, y0, n, 0)
}

/// Each sprite position paints its own cell: with columns confined to one
/// 64-cell row, equal positions force equal row and bit indices.
proof fn lemma_pos_inj(x0: int, y0: int, r1: int, j1: int, r2: int, j2: int)
    requires
        0 <= x0,
        0 <= x0 + j1 < 64,
        0 <= x0 + j2 < 64,
        0 <= j1,
        0 <= j2,
        pos_of(x0, y0, r1, j1) == pos_of(x0, y0, r2, j2),
    ensures
        r1 == r2,
        j1 == j2,
{
}

/// One step of the bit-by-bit walk: moving the frontier from `(ri, j)` to
/// `(ri, j + 1)` changes nothing when the position paints no visible pixel,
/// and otherwise adds exactly the cell `pos_of(x0, y0, ri, j)`, which no
/// earlier position painted.
proof fn lemma_draw_step(
    g: Seq<bool>,
    mem: Seq<u8>,
    idx: int,
    x0: int,
    y0: int,
    ri: int,
    j: int,
)
    requires
        0 <= ri,
        0 <= j < 8,
        0 <= x0,
        0 <= y0,
    ensures
        !covers_at(mem, idx, x0, y0, ri, j) ==> (forall|p: int|
            #[trigger] covers_lex(mem, idx, x0, y0, ri, j + 1, p) == covers_lex(
                mem,
                idx,
                x0,
                y0,
                ri,
                j,
                p,
            )) && collide_lex(g, mem, idx, x0, y0, ri, j + 1) == collide_lex(
            g,
            mem,
            idx,
            x0,
            y0,
            ri,
            j,
        ),
        covers_at(mem, idx, x0, y0, ri, j) ==> {
            let pt = pos_of(x0, y0, ri, j);
            &&& !covers_lex(mem, idx, x0, y0, ri, j, pt)
            &&& covers_lex(mem, idx, x0, y0, ri, j + 1, pt)
            &&& forall|p: int|
                p != pt ==> #[trigger] covers_lex(mem, idx, x0, y0, ri, j + 1, p) == covers_lex(
                    mem,
                    idx,
                    x0,
                    y0,
                    ri,
                    j,
                    p,
                )
            &&& collide_lex(g, mem, idx, x0, y0, ri, j + 1) == (collide_lex(
                g,
                mem,
                idx,
                x0,
                y0,
                ri,
                j,
            ) || g[pt])
        },
{
    if !covers_at(mem, idx, x0, y0, ri, j) {
        assert forall|p: int|
            #[trigger] covers_lex(mem, idx, x0, y0, ri, j + 1, p) == covers_lex(
                mem,
                idx,
                x0,
                y0,
                ri,
                j,
                p,
            ) by {
            if covers_lex(mem, idx, x0, y0, ri, j + 1, p) {
                let (r2, j2) = choose|r2: int, j2: int|
                    lex_before(r2, j2, ri, j + 1) && #[trigger] covers_at(mem, idx, x0, y0, r2, j2)
                        && p == pos_of(x0, y0, r2, j2);
                assert(!(r2 == ri && j2 == j));
                assert(lex_before(r2, j2, ri, j));
            }
        }
        if collide_lex(g, mem, idx, x0, y0, ri, j + 1) {
            let (r2, j2) = choose|r2: int, j2: int|
                lex_before(r2, j2, ri, j + 1) && #[trigger] covers_at(mem, idx, x0, y0, r2, j2)
                    && g[pos_of(x0, y0, r2, j2)];
            assert(lex_before(r2, j2, ri, j));
            assert(collide_lex(g, mem, idx, x0, y0, ri, j));
        }
    } else {
        let pt = pos_of(x0, y0, ri, j);
        if covers_lex(mem, idx, x0, y0, ri, j, pt) {
            let (r2, j2) = choose|r2: int, j2: int|
                lex_before(r2, j2, ri, j) && #[trigger] covers_at(mem, idx, x0, y0, r2, j2) && pt
                    == pos_of(x0, y0, r2, j2);
            lemma_pos_inj(x0, y0, r2, j2, ri, j);
            assert(false);
        }
        assert(covers_at(mem, idx, x0, y0, ri, j) && pt == pos_of(x0, y0, ri, j));
        assert(covers_lex(mem, idx, x0, y0, ri, j + 1, pt));
        assert forall|p: int|
            p != pt implies #[trigger] covers_lex(mem, idx, x0, y0, ri, j + 1, p) == covers_lex(
                mem,
                idx,
                x0,
                y0,
                ri,
                j,
                p,
            ) by {
            if covers_lex(mem, idx, x0, y0, ri, j + 1, p) {
                let (r2, j2) = choose|r2: int, j2: int|
                    lex_before(r2, j2, ri, j + 1) && #[trigger] covers_at(mem, idx, x0, y0, r2, j2)
                        && p == pos_of(x0, y0, r2, j2);
                assert(!(r2 == ri && j2 == j));
                assert(lex_before(r2, j2, ri, j));
            }
        }
        if collide_lex(g, mem, idx, x0, y0, ri, j + 1) {
            let (r2, j2) = choose|r2: int, j2: int|
                lex_before(r2, j2, ri, j + 1) && #[trigger] covers_at(mem, idx, x0, y0, r2, j2)
                    && g[pos_of(x0, y0, r2, j2)];
            if r2 == ri && j2 == j {
                assert(g[pt]);
            } else {
                assert(lex_before(r2, j2, ri, j));
                assert(collide_lex(g, mem, idx, x0, y0, ri, j));
            }
        }
        if collide_lex(g, mem, idx, x0, y0, ri, j) {
            let (r2, j2) = choose|r2: int, j2: int|
                lex_before(r2, j2, ri, j) && #[trigger] covers_at(mem, idx, x0, y0, r2, j2)
                    && g[pos_of(x0, y0, r2, j2)];
            assert(lex_before(r2, j2, ri, j + 1));
            assert(collide_lex(g, mem, idx, x0, y0, ri, j + 1));
        }
        if g[pt] {
            assert(lex_before(ri, j, ri, j + 1));
            assert(collide_lex(g, mem, idx, x0, y0, ri, j + 1));
        }
    }
}

/// Finishing a row: the walk frontier `(ri, 8)` marks the same visited set
/// as `(ri + 1, 0)`.
proof fn lemma_draw_row(g: Seq<bool>, mem: Seq<u8>, idx: int, x0: int, y0: int, ri: int)
    ensures
        forall|p: int|
            #[trigger] covers_lex(mem, idx, x0, y0, ri, 8, p) == covers_lex(
                mem,
                idx,
                x0,
                y0,
                ri + 1,
                0,
                p,
            ),
        collide_lex(g, mem, idx, x0, y0, ri, 8) == collide_lex(g, mem, idx, x0, y0, ri + 1, 0),
{
    assert forall|p: int|
        #[trigger] covers_lex(mem, idx, x0, y0, ri, 8, p) == covers_lex(
            mem,
            idx,
            x0,
            y0,
            ri + 1,
            0,
            p,
        ) by {
        if covers_lex(mem, idx, x0, y0, ri, 8, p) {
            let (r2, j2) = choose|r2: int, j2: int|
                lex_before(r2, j2, ri, 8) && #[trigger] covers_at(mem, idx, x0, y0, r2, j2) && p
                    == pos_of(x0, y0, r2, j2);
            assert(lex_before(r2, j2, ri + 1, 0));
        }
        if covers_lex(mem, idx, x0, y0, ri + 1, 0, p) {
            let (r2, j2) = choose|r2: int, j2: int|
                lex_before(r2, j2, ri + 1, 0) && #[trigger] covers_at(mem, idx, x0, y0, r2, j2)
                    && p == pos_of(x0, y0, r2, j2);
            assert(j2 < 8);
            assert(lex_before(r2, j2, ri, 8));
        }
    }
    if collide_lex(g, mem, idx, x0, y0, ri, 8) {
        let (r2, j2) = choose|r2: int, j2: int|
            lex_before(r2, j2, ri, 8) && #[trigger] covers_at(mem, idx, x0, y0, r2, j2) && g[pos_of(
                x0,
                y0,
                r2,
                j2,
            )];
        assert(lex_before(r2, j2, ri + 1, 0));
        assert(collide_lex(g, mem, idx, x0, y0, ri + 1, 0));
    }
    if collide_lex(g, mem, idx, x0, y0, ri + 1, 0) {
        let (r2, j2) = choose|r2: int, j2: int|
            lex_before(r2, j2, ri + 1, 0) && #[trigger] covers_at(mem, idx, x0, y0, r2, j2) && g[
                pos_of(x0, y0, r2, j2)
            ];
        assert(j2 < 8);
        assert(lex_before(r2, j2, ri, 8));
        assert(collide_lex(g, mem, idx, x0, y0, ri, 8));
    }
}

/// DRW Vx, Vy, n: the sprite at `memory[I..I+n]` is XOR-drawn anchored at
/// `(Vx mod 64, Vy mod 32)`, the flag register records whether any lit cell
/// went dark, and the redraw flag is raised. A sprite read past the end of
/// memory fails with `OutOfBounds` and changes nothing.
pub open spec fn sem_drw(pre: Cpu, post: Cpu, r: Result<(), CpuError>) -> bool {
    let n = nib0(pre.current_opcode) as int;
    let idx = pre.index_register as int;
    if idx + n > 4096 {
        r == Err::<(), CpuError>(CpuError::OutOfBounds) && state_eq(pre, post)
    } else {
        let x0 = pre.cpu_registers@[nib2(pre.current_opcode) as int] as int % 64;
        let y0 = pre.cpu_registers@[nib1(pre.current_opcode) as int] as int % 32;
        let hit = draw_collision(pre.graphics@, pre.memory@, idx, x0, y0, n);
        &&& r is Ok
        &&& post.graphics@ == draw_result(pre.graphics@, pre.memory@, idx, x0, y0, n)
        &&& post.can_draw == true
        &&& post.cpu_registers@ == pre.cpu_registers@.update(
            15,
            if hit {
                1u8
            } else {
                0u8
            },
        )
        &&& eq_mem(pre, post)
        &&& eq_index(pre, post)
        &&& eq_pc(pre, post)
        &&& eq_stack(pre, post)
        &&& eq_timers(pre, post)
        &&& eq_keypad(pre, post)
        &&& eq_opcode(pre, post)
    }
}

/// A fetch: the current opcode becomes the two bytes at the program
/// counter and the program counter moves past them; nothing else moves.
pub open spec fn fetch_rel(pre: Cpu, post: Cpu) -> bool {
    &&& post.current_opcode == fetched(pre)
    &&& post.program_counter == pre.program_counter + 2
    &&& eq_mem(pre, post)
    &&& eq_regs(pre, post)
    &&& eq_index(pre, post)
    &&& eq_stack(pre, post)
    &&& eq_timers(pre, post)
    &&& eq_keypad(pre, post)
    &&& eq_screen(pre, post)
}

/// Decode and execute: the effect of the current opcode on a machine whose
/// program counter already points past it. Dispatch goes by the top nibble,
/// with a secondary key for the groups 0x0, 0x8, 0xE and 0xF; a bit pattern
/// matching no instruction fails with `UnknownOpcode` and changes nothing.
pub open spec fn exec_rel(pre: Cpu, post: Cpu, r: Result<(), CpuError>) -> bool {
    let w = pre.current_opcode;
    if nib3(w) == 0x0 && nib2(w) == 0x0 && nib1(w) == 0xE && nib0(w) == 0x0 {
        r is Ok && sem_cls(pre, post)
    } else if nib3(w) == 0x0 && nib2(w) == 0x0 && nib1(w) == 0xE && nib0(w) == 0xE {
        sem_ret(pre, post, r)
    } else if nib3(w) == 0x1 {
        r is Ok && sem_jp(pre, post)
    } else if nib3(w) == 0x2 {
        sem_call(pre, post, r)
    } else if nib3(w) == 0x3 {
        r is Ok && sem_se_kk(pre, post)
    } else if nib3(w) == 0x4 {
        r is Ok && sem_sne_kk(pre, post)
    } else if nib3(w) == 0x5 {
        r is Ok && sem_se_xy(pre, post)
    } else if nib3(w) == 0x6 {
        r is Ok && sem_ld_kk(pre, post)
    } else if nib3(w) == 0x7 {
        r is Ok && sem_add_kk(pre, post)
    } else if nib3(w) == 0x8 && nib0(w) == 0x0 {
        r is Ok && sem_ld_xy(pre, post)
    } else if nib3(w) == 0x8 && nib0(w) == 0x1 {
        r is Ok && sem_or(pre, post)
    } else if nib3(w) == 0x8 && nib0(w) == 0x2 {
        r is Ok && sem_and(pre, post)
    } else if nib3(w) == 0x8 && nib0(w) == 0x3 {
        r is Ok && sem_xor(pre, post)
    } else if nib3(w) == 0x8 && nib0(w) == 0x4 {
        r is Ok && sem_add_xy(pre, post)
    } else if nib3(w) == 0x8 && nib0(w) == 0x5 {
        r is Ok && sem_sub_xy(pre, post)
    } else if nib3(w) == 0x8 && nib0(w) == 0x6 {
        r is Ok && sem_shr(pre, post)
    } else if nib3(w) == 0x8 && nib0(w) == 0x7 {
        r is Ok && sem_subn_xy(pre, post)
    } else if nib3(w) == 0x8 && nib0(w) == 0xE {
        r is Ok && sem_shl(pre, post)
    } else if nib3(w) == 0x9 {
        r is Ok && sem_sne_xy(pre, post)
    } else if nib3(w) == 0xA {
        r is Ok && sem_ld_i(pre, post)
    } else if nib3(w) == 0xB {
        r is Ok && sem_jp_v0(pre, post)
    } else if nib3(w) == 0xC {
        r is Ok && sem_rnd(pre, post)
    } else if nib3(w) == 0xD {
        sem_drw(pre, post, r)
    } else if nib3(w) == 0xE && nib1(w) == 0x9 && nib0(w) == 0xE {
        r is Ok && sem_skp(pre, post)
    } else if nib3(w) == 0xE && nib1(w) == 0xA && nib0(w) == 0x1 {
        r is Ok && sem_sknp(pre, post)
    } else if nib3(w) == 0xF && nib1(w) == 0x0 && nib0(w) == 0x7 {
        r is Ok && sem_ld_dt(pre, post)
    } else if nib3(w) == 0xF && nib1(w) == 0x0 && nib0(w) == 0xA {
        r is Ok && sem_wait_key(pre, post)
    } else if nib3(w) == 0xF && nib1(w) == 0x1 && nib0(w) == 0x5 {
        r is Ok && sem_set_dt(pre, post)
    } else if nib3(w) == 0xF && nib1(w) == 0x1 && nib0(w) == 0x8 {
        r is Ok && sem_set_st(pre, post)
    } else if nib3(w) == 0xF && nib1(w) == 0x1 && nib0(w) == 0xE {
        r is Ok && sem_add_i(pre, post)
    } else if nib3(w) == 0xF && nib1(w) == 0x2 && nib0(w) == 0x9 {
        r is Ok && sem_font(pre, post)
    } else if nib3(w) == 0xF && nib1(w) == 0x3 && nib0(w) == 0x3 {
        sem_bcd(pre, post, r)
    } else if nib3(w) == 0xF && nib1(w) == 0x5 && nib0(w) == 0x5 {
        sem_store_regs(pre, post, r)
    } else if nib3(w) == 0xF && nib1(w) == 0x6 && nib0(w) == 0x5 {
        sem_load_regs(pre, post, r)
    } else {
        r == Err::<(), CpuError>(CpuError::UnknownOpcode) && state_eq(pre, post)
    }
}

/// One whole step. A fetch past the end of memory fails with `OutOfBounds`
/// and changes nothing. Otherwise the opcode is fetched, the program
/// counter moves past it, the instruction executes as `exec_rel` says, and
/// on success the timers tick; on an instruction error the state stays at
/// the point of failure, with the program counter already advanced.
pub open spec fn cycle_rel(pre: Cpu, post: Cpu, r: Result<(), CpuError>) -> bool {
    if pre.program_counter as int + 1 >= 4096 {
        r == Err::<(), CpuError>(CpuError::OutOfBounds) && state_eq(pre, post)
    } else {
        exists|m1: Cpu, m2: Cpu|
            {
                &&& #[trigger] fetch_rel(pre, m1)
                &&& #[trigger] exec_rel(m1, m2, r)
                &&& (r is Ok ==> sem_tick(m2, post))
                &&& (r is Err ==> state_eq(m2, post))
            }
    }
}

/// The built-in glyph set: sixteen hexadecimal digit sprites of five bytes
/// each, in digit order.
pub open spec fn font_set() -> Seq<u8> {
    seq![
        0xF0u8, 0x90, 0x90, 0x90, 0xF0, // 0
        0x20, 0x60, 0x20, 0x20, 0x70, // 1
        0xF0, 0x10, 0xF0, 0x80, 0xF0, // 2
        0xF0, 0x10, 0xF0, 0x10, 0xF0, // 3
        0x90, 0x90, 0xF0, 0x10, 0x10, // 4
        0xF0, 0x80, 0xF0, 0x10, 0xF0, // 5
        0xF0, 0x80, 0xF0, 0x90, 0xF0, // 6
        0xF0, 0x10, 0x20, 0x40, 0x40, // 7
        0xF0, 0x90, 0xF0, 0x90, 0xF0, // 8
        0xF0, 0x90, 0xF0, 0x10, 0xF0, // 9
        0xF0, 0x90, 0xF0, 0x90, 0x90, // A
        0xE0, 0x90, 0xE0, 0x90, 0xE0, // B
        0xF0, 0x80, 0x80, 0x80, 0xF0, // C
        0xE0, 0x90, 0x90, 0x90, 0xE0, // D
        0xF0, 0x80, 0xF0, 0x80, 0xF0, // E
        0xF0, 0x80, 0xF0, 0x80, 0x80, // F
    ]
}

/// The memory holds the glyph set at its home 0x050..0x0A0.
pub open spec fn fontset_loaded(mem: Seq<u8>) -> bool {
    forall|j: int| 0 <= j < 80 ==> mem[0x50 + j] == font_set()[j]
}

/// The glyph table as a vector, in the same order as `font_set`.
fn font_bytes() -> (v: Vec<u8>)
    ensures
        v@ == font_set(),
{
    let mut v: Vec<u8> = Vec::new();
    v.push(0xF0); v.push(0x90); v.push(0x90); v.push(0x90); v.push(0xF0); // 0
    v.push(0x20); v.push(0x60); v.push(0x20); v.push(0x20); v.push(0x70); // 1
    v.push(0xF0); v.push(0x10); v.push(0xF0); v.push(0x80); v.push(0xF0); // 2
    v.push(0xF0); v.push(0x10); v.push(0xF0); v.push(0x10); v.push(0xF0); // 3
    v.push(0x90); v.push(0x90); v.push(0xF0); v.push(0x10); v.push(0x10); // 4
    v.push(0xF0); v.push(0x80); v.push(0xF0); v.push(0x10); v.push(0xF0); // 5
    v.push(0xF0); v.push(0x80); v.push(0xF0); v.push(0x90); v.push(0xF0); // 6
    v.push(0xF0); v.push(0x10); v.push(0x20); v.push(0x40); v.push(0x40); // 7
    v.push(0xF0); v.push(0x90); v.push(0xF0); v.push(0x90); v.push(0xF0); // 8
    v.push(0xF0); v.push(0x90); v.push(0xF0); v.push(0x10); v.push(0xF0); // 9
    v.push(0xF0); v.push(0x90); v.push(0xF0); v.push(0x90); v.push(0x90); // A
    v.push(0xE0); v.push(0x90); v.push(0xE0); v.push(0x90); v.push(0xE0); // B
    v.push(0xF0); v.push(0x80); v.push(0x80); v.push(0x80); v.push(0xF0); // C
    v.push(0xE0); v.push(0x90); v.push(0x90); v.push(0x90); v.push(0xE0); // D
    v.push(0xF0); v.push(0x80); v.push(0xF0); v.push(0x80); v.push(0xF0); // E
    v.push(0xF0); v.push(0x80); v.push(0xF0); v.push(0x80); v.push(0x80); // F
    proof {
        assert(v@ =~= font_set());
    }
    v
}

/// Relies on `rand::random`: a byte drawn from the thread-local generator,
/// uniformly distributed over 0..=255. Nothing is promised of the value.
#[verifier::external_body]
fn random_byte() -> u8 {
    rand::random::<u8>()
}

/// A vector of `n` zero bytes.
pub fn zero_bytes(n: usize) -> (v: Vec<u8>)
    ensures
        v@ == Seq::new(n as nat, |i: int| 0u8),
{
    let mut v: Vec<u8> = Vec::new();
    let mut i: usize = 0;
    while i < n
        invariant
            i <= n,
            v@ =~= Seq::new(i as nat, |j: int| 0u8),
        decreases n - i,
    {
        v.push(0);
        i = i + 1;
    }
    proof {
        assert(v@ =~= Seq::new(n as nat, |i: int| 0u8));
    }
    v
}

/// A vector of `n` zero 16-bit words.
pub fn zero_words(n: usize) -> (v: Vec<u16>)
    ensures
        v@ == Seq::new(n as nat, |i: int| 0u16),
{
    let mut v: Vec<u16> = Vec::new();
    let mut i: usize = 0;
    while i < n
        invariant
            i <= n,
            v@ =~= Seq::new(i as nat, |j: int| 0u16),
        decreases n - i,
    {
        v.push(0);
        i = i + 1;
    }
    proof {
        assert(v@ =~= Seq::new(n as nat, |i: int| 0u16));
    }
    v
}

/// A vector of `n` cleared flags.
fn zero_flags(n: usize) -> (v: Vec<bool>)
    ensures
        v@ == Seq::new(n as nat, |i: int| false),
{
    let mut v: Vec<bool> = Vec::new();
    let mut i: usize = 0;
    while i < n
        invariant
            i <= n,
            v@ =~= Seq::new(i as nat, |j: int| false),
        decreases n - i,
    {
        v.push(false);
        i = i + 1;
    }
    proof {
        assert(v@ =~= Seq::new(n as nat, |i: int| false));
    }
    v
}

impl Cpu {
    /// A freshly powered machine: zeroed state, the program counter at
    /// 0x200, and the glyph set copied to its home in low memory.
    pub fn new() -> (c: Cpu)
        ensures
            c.wf(),
            c.memory@.len() == 4096,
            forall|j: int| 0 <= j < 4096 && !(0x50 <= j < 0xA0) ==> c.memory@[j] == 0u8,
            fontset_loaded(c.memory@),
            c.cpu_registers@ =~= Seq::new(16, |i: int| 0u8),
            c.execution_stack@ =~= Seq::new(16, |i: int| 0u16),
            c.keypad@ =~= Seq::new(16, |i: int| false),
            c.graphics@ =~= Seq::new(2048, |i: int| false),
            c.current_opcode == 0,
            c.index_register == 0,
            c.program_counter == 0x200,
            c.stack_pointer == 0,
            c.delay_timer == 0,
            c.sound_timer == 0,
            c.can_draw == false,
    {
        let mut chip8 = Cpu {
            cpu_registers: zero_bytes(16),
            memory: zero_bytes(4096),
            index_register: 0,
            program_counter: 0x200,
            execution_stack: zero_words(16),
            stack_pointer: 0,
            delay_timer: 0,
            sound_timer: 0,
            keypad: zero_flags(16),
            graphics: zero_flags(2048),
            current_opcode: 0,
            can_draw: false,
        };
        chip8.initialize_fontset();
        chip8
    }

    /// Copy the glyph set into memory at its home 0x050..0x0A0, leaving
    /// every other byte and every other component alone.
    pub fn initialize_fontset(&mut self)
        requires
            old(self).wf(),
        ensures
            final(self).wf(),
            final(self).memory@.len() == old(self).memory@.len(),
            forall|j: int|
                0 <= j < old(self).memory@.len() && !(0x50 <= j < 0xA0)
                    ==> final(self).memory@[j] == old(self).memory@[j],
            fontset_loaded(final(self).memory@),
            eq_regs(*old(self), *final(self)),
            eq_index(*old(self), *final(self)),
            eq_pc(*old(self), *final(self)),
            eq_stack(*old(self), *final(self)),
            eq_timers(*old(self), *final(self)),
            eq_keypad(*old(self), *final(self)),
            eq_screen(*old(self), *final(self)),
            eq_opcode(*old(self), *final(self)),
    {
        let font = font_bytes();
        let mut i: usize = 0;
        while i < 80
            invariant
                old(self).wf(),
                self.wf(),
                i <= 80,
                font@ == font_set(),
                self.memory@.len() == old(self).memory@.len(),
                forall|j: int|
                    0 <= j < old(self).memory@.len() && !(0x50 <= j < 0x50 + i)
                        ==> self.memory@[j] == old(self).memory@[j],
                forall|j: int| 0 <= j < i ==> self.memory@[0x50 + j] == font_set()[j],
                eq_regs(*old(self), *self),
                eq_index(*old(self), *self),
                eq_pc(*old(self), *self),
                eq_stack(*old(self), *self),
                eq_timers(*old(self), *self),
                eq_keypad(*old(self), *self),
                eq_screen(*old(self), *self),
                eq_opcode(*old(self), *self),
            decreases 80 - i,
        {
            let b = font[i];
            self.memory.set(0x50 + i, b);
            i = i + 1;
        }
    }

    /// Place a program image into memory starting at 0x200. An image longer
    /// than the 3584 bytes of program space is refused whole, with
    /// `ProgramTooLarge`; nothing else ever changes.
    pub fn load_rom(&mut self, bytes: Vec<u8>) -> (r: Result<(), CpuError>)
        requires
            old(self).wf(),
        ensures
            final(self).wf(),
            bytes@.len() > 3584 ==> r == Err::<(), CpuError>(CpuError::ProgramTooLarge)
                && state_eq(*old(self), *final(self)),
            bytes@.len() <= 3584 ==> {
                &&& r is Ok
                &&& final(self).memory@.len() == 4096
                &&& forall|j: int|
                    0x200 <= j < 0x200 + bytes@.len()
                        ==> final(self).memory@[j] == bytes@[j - 0x200]
                &&& forall|j: int|
                    0 <= j < 4096 && !(0x200 <= j < 0x200 + bytes@.len())
                        ==> final(self).memory@[j] == old(self).memory@[j]
            },
            eq_regs(*old(self), *final(self)),
            eq_index(*old(self), *final(self)),
            eq_pc(*old(self), *final(self)),
            eq_stack(*old(self), *final(self)),
            eq_timers(*old(self), *final(self)),
            eq_keypad(*old(self), *final(self)),
            eq_screen(*old(self), *final(self)),
            eq_opcode(*old(self), *final(self)),
    {
        if bytes.len() > 3584 {
            return Err(CpuError::ProgramTooLarge);
        }
        let mut i: usize = 0;
        while i < bytes.len()
            invariant
                old(self).wf(),
                self.wf(),
                i <= bytes@.len(),
                bytes@.len() <= 3584,
                forall|j: int|
                    0x200 <= j < 0x200 + i ==> self.memory@[j] == bytes@[j - 0x200],
                forall|j: int|
                    0 <= j < 4096 && !(0x200 <= j < 0x200 + i) ==> self.memory@[j] == old(
                        self,
                    ).memory@[j],
                eq_regs(*old(self), *self),
                eq_index(*old(self), *self),
                eq_pc(*old(self), *self),
                eq_stack(*old(self), *self),
                eq_timers(*old(self), *self),
                eq_keypad(*old(self), *self),
                eq_screen(*old(self), *self),
                eq_opcode(*old(self), *self),
            decreases bytes@.len() - i,
        {
            let b = bytes[i];
            self.memory.set(0x200 + i, b);
            i = i + 1;
        }
        Ok(())
    }

    /// One timer tick, as the end of every successful cycle performs it.
    pub fn update_timers(&mut self)
        requires
            old(self).wf(),
        ensures
            final(self).wf(),
            sem_tick(*old(self), *final(self)),
    {
        if self.delay_timer > 0 {
            self.delay_timer = self.delay_timer - 1;
        }
        if self.sound_timer > 0 {
            self.sound_timer = self.sound_timer - 1;
        }
    }

    /// The pixel at `(row, col)`: true when lit.
    pub fn pixel(&self, row: usize, col: usize) -> (b: bool)
        requires
            self.wf(),
            row < 32,
            col < 64,
        ensures
            b == self.graphics@[row * 64 + col],
    {
        self.graphics[row * 64 + col]
    }

    /// The register field `x` of the current opcode.
    pub fn get_x(&self) -> (x: usize)
        ensures
            x == nib2(self.current_opcode),
            x < 16,
    {
        proof {
            lemma_opcode_fields(self.current_opcode);
        }
        ((self.current_opcode & 0x0F00) >> 8u16) as usize
    }

    /// The register field `y` of the current opcode.
    pub fn get_y(&self) -> (y: usize)
        ensures
            y == nib1(self.current_opcode),
            y < 16,
    {
        proof {
            lemma_opcode_fields(self.current_opcode);
        }
        ((self.current_opcode & 0x00F0) >> 4u16) as usize
    }

    /// The literal byte `kk` of the current opcode.
    pub fn get_kk(&self) -> (kk: u8)
        ensures
            kk == kk_of(self.current_opcode),
    {
        proof {
            lemma_opcode_fields(self.current_opcode);
        }
        (self.current_opcode & 0x00FF) as u8
    }

    /// Read the two memory bytes at the program counter into the current
    /// opcode, or fail with `OutOfBounds` when the second byte would lie
    /// past the end of memory.
    pub fn fetch_opcode(&mut self) -> (r: Result<(), CpuError>)
        requires
            old(self).wf(),
        ensures
            final(self).wf(),
            old(self).program_counter as int + 1 >= 4096 ==> r == Err::<(), CpuError>(
                CpuError::OutOfBounds,
            ) && state_eq(*old(self), *final(self)),
            old(self).program_counter as int + 1 < 4096 ==> r is Ok && final(self).current_opcode
                == fetched(*old(self)),
            eq_mem(*old(self), *final(self)),
            eq_regs(*old(self), *final(self)),
            eq_index(*old(self), *final(self)),
            eq_pc(*old(self), *final(self)),
            eq_stack(*old(self), *final(self)),
            eq_timers(*old(self), *final(self)),
            eq_keypad(*old(self), *final(self)),
            eq_screen(*old(self), *final(self)),
    {
        let pc = self.program_counter as usize;
        if pc + 1 >= 4096 {
            return Err(CpuError::OutOfBounds);
        }
        let first = self.memory[pc] as u16;
        let second = self.memory[pc + 1] as u16;
        let opcode = (first << 8u16) | second;
        self.current_opcode = opcode;
        Ok(())
    }

    /// Decode the current opcode by its nibbles and run the matching
    /// instruction. Expects the program counter to point past the opcode
    /// already, as it does after a fetch.
    pub fn execute_opcode(&mut self) -> (r: Result<(), CpuError>)
        requires
            old(self).wf(),
            old(self).program_counter >= 2,
            old(self).program_counter + 2 < 65536,
        ensures
            final(self).wf(),
            exec_rel(*old(self), *final(self), r),
    {
        let opcode_parts = (
            (self.current_opcode & 0xF000) >> 12u16,
            (self.current_opcode & 0x0F00) >> 8u16,
            (self.current_opcode & 0x00F0) >> 4u16,
            self.current_opcode & 0x000F,
        );
        match opcode_parts {
            (0x0, 0x0, 0xE, 0x0) => {
                self.op_00E0();
                Ok(())
            },
            (0x0, 0x0, 0xE, 0xE) => self.op_00EE(),
            (0x1, _, _, _) => {
                self.op_1nnn();
                Ok(())
            },
            (0x2, _, _, _) => self.op_2nnn(),
            (0x3, _, _, _) => {
                self.op_3xkk();
                Ok(())
            },
            (0x4, _, _, _) => {
                self.op_4xkk();
                Ok(())
            },
            (0x5, _, _, _) => {
                self.op_5xy0();
                Ok(())
            },
            (0x6, _, _, _) => {
                self.op_6xkk();
                Ok(())
            },
            (0x7, _, _, _) => {
                self.op_7xkk();
                Ok(())
            },
            (0x8, _, _, 0x0) => {
                self.op_8xy0();
                Ok(())
            },
            (0x8, _, _, 0x1) => {
                self.op_8xy1();
                Ok(())
            },
            (0x8, _, _, 0x2) => {
                self.op_8xy2();
                Ok(())
            },
            (0x8, _, _, 0x3) => {
                self.op_8xy3();
                Ok(())
            },
            (0x8, _, _, 0x4) => {
                self.op_8xy4();
                Ok(())
            },
            (0x8, _, _, 0x5) => {
                self.op_8xy5();
                Ok(())
            },
            (0x8, _, _, 0x6) => {
                self.op_8xy6();
                Ok(())
            },
            (0x8, _, _, 0x7) => {
                self.op_8xy7();
                Ok(())
            },
            (0x8, _, _, 0xE) => {
                self.op_8xyE();
                Ok(())
            },
            (0x9, _, _, _) => {
                self.op_9xy0();
                Ok(())
            },
            (0xA, _, _, _) => {
                self.op_Annn();
                Ok(())
            },
            (0xB, _, _, _) => {
                self.op_Bnnn();
                Ok(())
            },
            (0xC, _, _, _) => {
                self.op_Cxkk();
                Ok(())
            },
            (0xD, _, _, _) => self.op_Dxyn(),
            (0xE, _, 0x9, 0xE) => {
                self.op_Ex9E();
                Ok(())
            },
            (0xE, _, 0xA, 0x1) => {
                self.op_ExA1();
                Ok(())
            },
            (0xF, _, 0x0, 0x7) => {
                self.op_Fx07();
                Ok(())
            },
            (0xF, _, 0x0, 0xA) => {
                self.op_Fx0A();
                Ok(())
            },
            (0xF, _, 0x1, 0x5) => {
                self.op_Fx15();
                Ok(())
            },
            (0xF, _, 0x1, 0x8) => {
                self.op_Fx18();
                Ok(())
            },
            (0xF, _, 0x1, 0xE) => {
                self.op_Fx1E();
                Ok(())
            },
            (0xF, _, 0x2, 0x9) => {
                self.op_Fx29();
                Ok(())
            },
            (0xF, _, 0x3, 0x3) => self.op_Fx33(),
            (0xF, _, 0x5, 0x5) => self.op_Fx55(),
            (0xF, _, 0x6, 0x5) => self.op_Fx65(),
            _ => Err(CpuError::UnknownOpcode),
        }
    }

    /// One fetch-decode-execute-timer cycle, the only mutator a driver
    /// needs: fetch the opcode, move the program counter past it, run the
    /// instruction, and on success tick the timers. Any failure leaves the
    /// machine at the point of failure and reports why.
    pub fn cycle(&mut self) -> (r: Result<(), CpuError>)
        requires
            old(self).wf(),
        ensures
            final(self).wf(),
            cycle_rel(*old(self), *final(self), r),
    {
        match self.fetch_opcode() {
            Err(e) => {
                return Err(e);
            },
            Ok(()) => {},
        }
        self.program_counter = self.program_counter + 2;
        let ghost m1 = *self;
        let r = self.execute_opcode();
        let ghost m2 = *self;
        proof {
            assert(fetch_rel(*old(self), m1));
            assert(exec_rel(m1, m2, r));
        }
        if r.is_ok() {
            self.update_timers();
        }
        proof {
            assert(fetch_rel(*old(self), m1) && exec_rel(m1, m2, r) && (r is Ok ==> sem_tick(
                m2,
                *self,
            )) && (r is Err ==> state_eq(m2, *self)));
        }
        r
    }

    /// CLS.
    pub fn op_00E0(&mut self)
        requires
            old(self).wf(),
        ensures
            final(self).wf(),
            sem_cls(*old(self), *final(self)),
    {
        self.graphics = zero_flags(2048);
        self.can_draw = true;
    }

    /// RET.
    pub fn op_00EE(&mut self) -> (r: Result<(), CpuError>)
        requires
            old(self).wf(),
        ensures
            final(self).wf(),
            sem_ret(*old(self), *final(self), r),
    {
        if self.stack_pointer == 0 {
            return Err(CpuError::StackUnderflow);
        }
        self.stack_pointer = self.stack_pointer - 1;
        self.program_counter = self.execution_stack[self.stack_pointer];
        Ok(())
    }

    /// JP addr.
    pub fn op_1nnn(&mut self)
        requires
            old(self).wf(),
        ensures
            final(self).wf(),
            sem_jp(*old(self), *final(self)),
    {
        let address = self.current_opcode & 0x0FFF;
        self.program_counter = address;
    }

    /// CALL addr.
    pub fn op_2nnn(&mut self) -> (r: Result<(), CpuError>)
        requires
            old(self).wf(),
        ensures
            final(self).wf(),
            sem_call(*old(self), *final(self), r),
    {
        if self.stack_pointer >= 16 {
            return Err(CpuError::StackOverflow);
        }
        let address = self.current_opcode & 0x0FFF;
        let pc = self.program_counter;
        self.execution_stack.set(self.stack_pointer, pc);
        self.stack_pointer = self.stack_pointer + 1;
        self.program_counter = address;
        Ok(())
    }

    /// SE Vx, kk.
    pub fn op_3xkk(&mut self)
        requires
            old(self).wf(),
            old(self).program_counter + 2 < 65536,
        ensures
            final(self).wf(),
            sem_se_kk(*old(self), *final(self)),
    {
        let x = self.get_x();
        let kk = self.get_kk();
        if self.cpu_registers[x] == kk {
            self.program_counter = self.program_counter + 2;
        }
    }

    /// SNE Vx, kk.
    pub fn op_4xkk(&mut self)
        requires
            old(self).wf(),
            old(self).program_counter + 2 < 65536,
        ensures
            final(self).wf(),
            sem_sne_kk(*old(self), *final(self)),
    {
        let x = self.get_x();
        let kk = self.get_kk();
        if self.cpu_registers[x] != kk {
            self.program_counter = self.program_counter + 2;
        }
    }

    /// SE Vx, Vy.
    pub fn op_5xy0(&mut self)
        requires
            old(self).wf(),
            old(self).program_counter + 2 < 65536,
        ensures
            final(self).wf(),
            sem_se_xy(*old(self), *final(self)),
    {
        let x = self.get_x();
        let y = self.get_y();
        if self.cpu_registers[x] == self.cpu_registers[y] {
            self.program_counter = self.program_counter + 2;
        }
    }

    /// SNE Vx, Vy.
    pub fn op_9xy0(&mut self)
        requires
            old(self).wf(),
            old(self).program_counter + 2 < 65536,
        ensures
            final(self).wf(),
            sem_sne_xy(*old(self), *final(self)),
    {
        let x = self.get_x();
        let y = self.get_y();
        if self.cpu_registers[x] != self.cpu_registers[y] {
            self.program_counter = self.program_counter + 2;
        }
    }

    /// LD Vx, kk.
    pub fn op_6xkk(&mut self)
        requires
            old(self).wf(),
        ensures
            final(self).wf(),
            sem_ld_kk(*old(self), *final(self)),
    {
        let x = self.get_x();
        let kk = self.get_kk();
        self.cpu_registers.set(x, kk);
    }

    /// ADD Vx, kk.
    pub fn op_7xkk(&mut self)
        requires
            old(self).wf(),
        ensures
            final(self).wf(),
            sem_add_kk(*old(self), *final(self)),
    {
        let x = self.get_x();
        let kk = self.get_kk();
        let vx = self.cpu_registers[x];
        let sum: u16 = vx as u16 + kk as u16;
        self.cpu_registers.set(x, (sum % 256) as u8);
    }

    /// LD Vx, Vy.
    pub fn op_8xy0(&mut self)
        requires
            old(self).wf(),
        ensures
            final(self).wf(),
            sem_ld_xy(*old(self), *final(self)),
    {
        let x = self.get_x();
        let y = self.get_y();
        let vy = self.cpu_registers[y];
        self.cpu_registers.set(x, vy);
    }

    /// OR Vx, Vy.
    pub fn op_8xy1(&mut self)
        requires
            old(self).wf(),
        ensures
            final(self).wf(),
            sem_or(*old(self), *final(self)),
    {
        let x = self.get_x();
        let y = self.get_y();
        let vx = self.cpu_registers[x];
        let vy = self.cpu_registers[y];
        self.cpu_registers.set(x, vx | vy);
    }

    /// AND Vx, Vy.
    pub fn op_8xy2(&mut self)
        requires
            old(self).wf(),
        ensures
            final(self).wf(),
            sem_and(*old(self), *final(self)),
    {
        let x = self.get_x();
        let y = self.get_y();
        let vx = self.cpu_registers[x];
        let vy = self.cpu_registers[y];
        self.cpu_registers.set(x, vx & vy);
    }

    /// XOR Vx, Vy.
    pub fn op_8xy3(&mut self)
        requires
            old(self).wf(),
        ensures
            final(self).wf(),
            sem_xor(*old(self), *final(self)),
    {
        let x = self.get_x();
        let y = self.get_y();
        let vx = self.cpu_registers[x];
        let vy = self.cpu_registers[y];
        self.cpu_registers.set(x, vx ^ vy);
    }

    /// ADD Vx, Vy.
    pub fn op_8xy4(&mut self)
        requires
            old(self).wf(),
        ensures
            final(self).wf(),
            sem_add_xy(*old(self), *final(self)),
    {
        let x = self.get_x();
        let y = self.get_y();
        let vx = self.cpu_registers[x];
        let vy = self.cpu_registers[y];
        let sum: u16 = vx as u16 + vy as u16;
        self.cpu_registers.set(15, if sum > 255 { 1 } else { 0 });
        self.cpu_registers.set(x, (sum % 256) as u8);
    }

    /// SUB Vx, Vy.
    pub fn op_8xy5(&mut self)
        requires
            old(self).wf(),
        ensures
            final(self).wf(),
            sem_sub_xy(*old(self), *final(self)),
    {
        let x = self.get_x();
        let y = self.get_y();
        let vx = self.cpu_registers[x];
        let vy = self.cpu_registers[y];
        self.cpu_registers.set(15, if vx > vy { 1 } else { 0 });
        proof {
            lemma_wrap8(vx as int - vy as int);
        }
        let diff: u8 = if vx >= vy {
            vx - vy
        } else {
            (vx as u16 + 256 - vy as u16) as u8
        };
        self.cpu_registers.set(x, diff);
    }

    /// SHR Vx.
    pub fn op_8xy6(&mut self)
        requires
            old(self).wf(),
        ensures
            final(self).wf(),
            sem_shr(*old(self), *final(self)),
    {
        let x = self.get_x();
        let vx = self.cpu_registers[x];
        self.cpu_registers.set(15, vx % 2);
        self.cpu_registers.set(x, vx / 2);
    }

    /// SUBN Vx, Vy.
    pub fn op_8xy7(&mut self)
        requires
            old(self).wf(),
        ensures
            final(self).wf(),
            sem_subn_xy(*old(self), *final(self)),
    {
        let x = self.get_x();
        let y = self.get_y();
        let vx = self.cpu_registers[x];
        let vy = self.cpu_registers[y];
        self.cpu_registers.set(15, if vy > vx { 1 } else { 0 });
        proof {
            lemma_wrap8(vy as int - vx as int);
        }
        let diff: u8 = if vy >= vx {
            vy - vx
        } else {
            (vy as u16 + 256 - vx as u16) as u8
        };
        self.cpu_registers.set(x, diff);
    }

    /// SHL Vx.
    pub fn op_8xyE(&mut self)
        requires
            old(self).wf(),
        ensures
            final(self).wf(),
            sem_shl(*old(self), *final(self)),
    {
        let x = self.get_x();
        let vx = self.cpu_registers[x];
        self.cpu_registers.set(15, if vx >= 128 { 1 } else { 0 });
        let dbl: u16 = vx as u16 * 2;
        self.cpu_registers.set(x, (dbl % 256) as u8);
    }

    /// LD I, addr.
    pub fn op_Annn(&mut self)
        requires
            old(self).wf(),
        ensures
            final(self).wf(),
            sem_ld_i(*old(self), *final(self)),
    {
        let address = self.current_opcode & 0x0FFF;
        self.index_register = address;
    }

    /// RND Vx, kk.
    pub fn op_Cxkk(&mut self)
        requires
            old(self).wf(),
        ensures
            final(self).wf(),
            sem_rnd(*old(self), *final(self)),
    {
        proof {
            lemma_opcode_fields(self.current_opcode);
        }
        let x = self.get_x();
        let kk = self.get_kk();
        let b = random_byte();
        self.cpu_registers.set(x, kk & b);
        proof {
            assert(final(self).cpu_registers@ == old(self).cpu_registers@.update(
                nib2(old(self).current_opcode) as int,
                (kk_of(old(self).current_opcode) as u8) & b,
            ));
        }
    }

    /// DRW Vx, Vy, n.
    #[verifier::rlimit(30)]
    pub fn op_Dxyn(&mut self) -> (r: Result<(), CpuError>)
        requires
            old(self).wf(),
        ensures
            final(self).wf(),
            sem_drw(*old(self), *final(self), r),
    {
        proof {
            lemma_opcode_fields(self.current_opcode);
        }
        let n = (self.current_opcode & 0x000F) as usize;
        let idx = self.index_register as usize;
        if idx + n > 4096 {
            return Err(CpuError::OutOfBounds);
        }
        let x = self.get_x();
        let y = self.get_y();
        let x0 = (self.cpu_registers[x] as usize) % 64;
        let y0 = (self.cpu_registers[y] as usize) % 32;
        let ghost g0 = self.graphics@;
        let ghost mem0 = self.memory@;
        let mut hit = false;
        let mut ri: usize = 0;
        while ri < n
            invariant
                old(self).wf(),
                self.wf(),
                ri <= n,
                n < 16,
                n == nib0(old(self).current_opcode),
                idx == old(self).index_register,
                idx + n <= 4096,
                x0 == old(self).cpu_registers@[nib2(old(self).current_opcode) as int] as int % 64,
                y0 == old(self).cpu_registers@[nib1(old(self).current_opcode) as int] as int % 32,
                x0 < 64,
                y0 < 32,
                g0 == old(self).graphics@,
                mem0 == old(self).memory@,
                forall|p: int|
                    0 <= p < 2048 ==> self.graphics@[p] == (g0[p] != covers_lex(
                        mem0,
                        idx as int,
                        x0 as int,
                        y0 as int,
                        ri as int,
                        0,
                        p,
                    )),
                hit == collide_lex(g0, mem0, idx as int, x0 as int, y0 as int, ri as int, 0),
                eq_mem(*old(self), *self),
                eq_regs(*old(self), *self),
                eq_index(*old(self), *self),
                eq_pc(*old(self), *self),
                eq_stack(*old(self), *self),
                eq_timers(*old(self), *self),
                eq_keypad(*old(self), *self),
                eq_opcode(*old(self), *self),
                self.can_draw == old(self).can_draw,
            decreases n - ri,
        {
            let sprite_byte = self.memory[idx + ri];
            let mut j: usize = 0;
            while j < 8
                invariant
                    old(self).wf(),
                    self.wf(),
                    ri < n,
                    j <= 8,
                    n < 16,
                    n == nib0(old(self).current_opcode),
                    idx == old(self).index_register,
                    idx + n <= 4096,
                    x0 == old(self).cpu_registers@[nib2(old(self).current_opcode) as int] as int
                        % 64,
                    y0 == old(self).cpu_registers@[nib1(old(self).current_opcode) as int] as int
                        % 32,
                    x0 < 64,
                    y0 < 32,
                    g0 == old(self).graphics@,
                    mem0 == old(self).memory@,
                    sprite_byte == mem0[idx + ri],
                    forall|p: int|
                        0 <= p < 2048 ==> self.graphics@[p] == (g0[p] != covers_lex(
                            mem0,
                            idx as int,
                            x0 as int,
                            y0 as int,
                            ri as int,
                            j as int,
                            p,
                        )),
                    hit == collide_lex(
                        g0,
                        mem0,
                        idx as int,
                        x0 as int,
                        y0 as int,
                        ri as int,
                        j as int,
                    ),
                    eq_mem(*old(self), *self),
                    eq_regs(*old(self), *self),
                    eq_index(*old(self), *self),
                    eq_pc(*old(self), *self),
                    eq_stack(*old(self), *self),
                    eq_timers(*old(self), *self),
                    eq_keypad(*old(self), *self),
                    eq_opcode(*old(self), *self),
                    self.can_draw == old(self).can_draw,
                decreases 8 - j,
            {
                let sh: u8 = (7 - j) as u8;
                let sbit = ((sprite_byte >> sh) & 1) == 1;
                let row = y0 + ri;
                let col = x0 + j;
                proof {
                    assert(sbit == sprite_bit(mem0[idx + ri], j as int));
                    lemma_draw_step(
                        g0,
                        mem0,
                        idx as int,
                        x0 as int,
                        y0 as int,
                        ri as int,
                        j as int,
                    );
                }
                if sbit && row < 32 && col < 64 {
                    let p = row * 64 + col;
                    proof {
                        assert(covers_at(
                            mem0,
                            idx as int,
                            x0 as int,
                            y0 as int,
                            ri as int,
                            j as int,
                        ));
                        assert(p == pos_of(x0 as int, y0 as int, ri as int, j as int));
                    }
                    let cur = self.graphics[p];
                    proof {
                        assert(cur == g0[p as int]);
                    }
                    if cur {
                        hit = true;
                    }
                    self.graphics.set(p, !cur);
                } else {
                    proof {
                        assert(!covers_at(
                            mem0,
                            idx as int,
                            x0 as int,
                            y0 as int,
                            ri as int,
                            j as int,
                        ));
                    }
                }
                j = j + 1;
            }
            proof {
                lemma_draw_row(g0, mem0, idx as int, x0 as int, y0 as int, ri as int);
            }
            ri = ri + 1;
        }
        let vf: u8 = if hit {
            1
        } else {
            0
        };
        self.cpu_registers.set(15, vf);
        self.can_draw = true;
        proof {
            assert(self.graphics@ =~= draw_result(
                g0,
                mem0,
                idx as int,
                x0 as int,
                y0 as int,
                n as int,
            ));
        }
        Ok(())
    }

    /// SKP Vx.
    pub fn op_Ex9E(&mut self)
        requires
            old(self).wf(),
            old(self).program_counter + 2 < 65536,
        ensures
            final(self).wf(),
            sem_skp(*old(self), *final(self)),
    {
        let x = self.get_x();
        let vx = self.cpu_registers[x];
        let key = (vx % 16) as usize;
        if self.keypad[key] {
            self.program_counter = self.program_counter + 2;
        }
    }

    /// SKNP Vx.
    pub fn op_ExA1(&mut self)
        requires
            old(self).wf(),
            old(self).program_counter + 2 < 65536,
        ensures
            final(self).wf(),
            sem_sknp(*old(self), *final(self)),
    {
        let x = self.get_x();
        let vx = self.cpu_registers[x];
        let key = (vx % 16) as usize;
        if !self.keypad[key] {
            self.program_counter = self.program_counter + 2;
        }
    }

    /// LD Vx, DT.
    pub fn op_Fx07(&mut self)
        requires
            old(self).wf(),
        ensures
            final(self).wf(),
            sem_ld_dt(*old(self), *final(self)),
    {
        let x = self.get_x();
        let dt = self.delay_timer;
        self.cpu_registers.set(x, dt);
    }

    /// LD Vx, K.
    pub fn op_Fx0A(&mut self)
        requires
            old(self).wf(),
            old(self).program_counter >= 2,
        ensures
            final(self).wf(),
            sem_wait_key(*old(self), *final(self)),
    {
        let x = self.get_x();
        let mut found = false;
        let mut key: usize = 0;
        let mut i: usize = 0;
        while i < 16
            invariant
                self.wf(),
                i <= 16,
                !found ==> forall|j: int| 0 <= j < i ==> !self.keypad@[j],
                found ==> key < i && self.keypad@[key as int] && forall|j: int|
                    0 <= j < key ==> !self.keypad@[j],
            decreases 16 - i,
        {
            if !found && self.keypad[i] {
                found = true;
                key = i;
            }
            i = i + 1;
        }
        if found {
            self.cpu_registers.set(x, key as u8);
        } else {
            self.program_counter = self.program_counter - 2;
        }
    }

    /// LD DT, Vx.
    pub fn op_Fx15(&mut self)
        requires
            old(self).wf(),
        ensures
            final(self).wf(),
            sem_set_dt(*old(self), *final(self)),
    {
        let x = self.get_x();
        self.delay_timer = self.cpu_registers[x];
    }

    /// LD ST, Vx.
    pub fn op_Fx18(&mut self)
        requires
            old(self).wf(),
        ensures
            final(self).wf(),
            sem_set_st(*old(self), *final(self)),
    {
        let x = self.get_x();
        self.sound_timer = self.cpu_registers[x];
    }

    /// ADD I, Vx.
    pub fn op_Fx1E(&mut self)
        requires
            old(self).wf(),
        ensures
            final(self).wf(),
            sem_add_i(*old(self), *final(self)),
    {
        let x = self.get_x();
        let vx = self.cpu_registers[x];
        let sum: u32 = self.index_register as u32 + vx as u32;
        self.index_register = (sum % 65536) as u16;
    }

    /// LD F, Vx.
    pub fn op_Fx29(&mut self)
        requires
            old(self).wf(),
        ensures
            final(self).wf(),
            sem_font(*old(self), *final(self)),
    {
        let x = self.get_x();
        let digit = self.cpu_registers[x] as u16;
        self.index_register = 0x50 + 5 * digit;
    }

    /// LD B, Vx.
    pub fn op_Fx33(&mut self) -> (r: Result<(), CpuError>)
        requires
            old(self).wf(),
        ensures
            final(self).wf(),
            sem_bcd(*old(self), *final(self), r),
    {
        let idx = self.index_register as usize;
        if idx + 2 >= 4096 {
            return Err(CpuError::OutOfBounds);
        }
        let x = self.get_x();
        let vx = self.cpu_registers[x];
        self.memory.set(idx, vx / 100);
        self.memory.set(idx + 1, (vx / 10) % 10);
        self.memory.set(idx + 2, vx % 10);
        Ok(())
    }

    /// LD [I], Vx.
    pub fn op_Fx55(&mut self) -> (r: Result<(), CpuError>)
        requires
            old(self).wf(),
        ensures
            final(self).wf(),
            sem_store_regs(*old(self), *final(self), r),
    {
        let x = self.get_x();
        let idx = self.index_register as usize;
        if idx + x >= 4096 {
            return Err(CpuError::OutOfBounds);
        }
        let mut i: usize = 0;
        while i <= x
            invariant
                old(self).wf(),
                self.wf(),
                x < 16,
                x == nib2(old(self).current_opcode),
                idx == old(self).index_register,
                idx + x < 4096,
                i <= x + 1,
                forall|j: int|
                    0 <= j < 4096 && !(idx <= j < idx + i) ==> self.memory@[j] == old(
                        self,
                    ).memory@[j],
                forall|j: int|
                    idx <= j < idx + i ==> self.memory@[j] == old(self).cpu_registers@[j - idx],
                eq_regs(*old(self), *self),
                eq_index(*old(self), *self),
                eq_pc(*old(self), *self),
                eq_stack(*old(self), *self),
                eq_timers(*old(self), *self),
                eq_keypad(*old(self), *self),
                eq_screen(*old(self), *self),
                eq_opcode(*old(self), *self),
            decreases x + 1 - i,
        {
            let v = self.cpu_registers[i];
            self.memory.set(idx + i, v);
            i = i + 1;
        }
        Ok(())
    }

    /// LD Vx, [I].
    pub fn op_Fx65(&mut self) -> (r: Result<(), CpuError>)
        requires
            old(self).wf(),
        ensures
            final(self).wf(),
            sem_load_regs(*old(self), *final(self), r),
    {
        let x = self.get_x();
        let idx = self.index_register as usize;
        if idx + x >= 4096 {
            return Err(CpuError::OutOfBounds);
        }
        let mut i: usize = 0;
        while i <= x
            invariant
                old(self).wf(),
                self.wf(),
                x < 16,
                x == nib2(old(self).current_opcode),
                idx == old(self).index_register,
                idx + x < 4096,
                i <= x + 1,
                forall|j: int|
                    0 <= j < 16 && !(j < i) ==> self.cpu_registers@[j] == old(
                        self,
                    ).cpu_registers@[j],
                forall|j: int|
                    0 <= j < i ==> self.cpu_registers@[j] == old(self).memory@[idx + j],
                eq_mem(*old(self), *self),
                eq_index(*old(self), *self),
                eq_pc(*old(self), *self),
                eq_stack(*old(self), *self),
                eq_timers(*old(self), *self),
                eq_keypad(*old(self), *self),
                eq_screen(*old(self), *self),
                eq_opcode(*old(self), *self),
            decreases x + 1 - i,
        {
            let v = self.memory[idx + i];
            self.cpu_registers.set(i, v);
            i = i + 1;
        }
        Ok(())
    }

    /// JP V0, addr.
    pub fn op_Bnnn(&mut self)
        requires
            old(self).wf(),
        ensures
            final(self).wf(),
            sem_jp_v0(*old(self), *final(self)),
    {
        proof {
            lemma_opcode_fields(self.current_opcode);
        }
        let address = self.current_opcode & 0x0FFF;
        self.program_counter = self.cpu_registers[0] as u16 + address;
    }
}

} // verus!
