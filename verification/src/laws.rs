//! Laws of the instruction set: statements that relate several
//! instructions, or spell out a consequence of one instruction's semantics,
//! proved here once for all machine states.

use vstd::prelude::*;
use crate::cpu::{
    Cpu,
    CpuError,
    collide_lex,
    covers_at,
    covers_lex,
    draw_collision,
    draw_result,
    fontset_loaded,
    font_set,
    lemma_opcode_fields,
    lex_before,
    nib1,
    nib2,
    pos_of,
    eq_index,
    eq_keypad,
    eq_mem,
    eq_regs,
    eq_stack,
    sem_add_xy,
    sem_call,
    sem_drw,
    sem_font,
    sem_load_regs,
    sem_ret,
    sem_shl,
    sem_shr,
    sem_sub_xy,
    sem_cls,
    wrap8,
};

verus! {

/// ADD Vx, Vy sets the flag register to 1 exactly when the true sum
/// overflows a byte, and leaves `Vx` holding the sum modulo 256 — provided
/// `Vx` is not the flag register itself, which the sum would overwrite.
pub proof fn lemma_add_carry(pre: Cpu, post: Cpu)
    requires
        pre.wf(),
        sem_add_xy(pre, post),
        nib2(pre.current_opcode) != 15,
    ensures
        ({
            let x = nib2(pre.current_opcode) as int;
            let y = nib1(pre.current_opcode) as int;
            let sum = pre.cpu_registers@[x] + pre.cpu_registers@[y];
            &&& post.cpu_registers@[15] == (if sum > 255 {
                1u8
            } else {
                0u8
            })
            &&& post.cpu_registers@[x] == wrap8(sum)
        }),
{
    lemma_opcode_fields(pre.current_opcode);
}

/// SUB Vx, Vy sets the flag register to 1 exactly when `Vx > Vy` held
/// before the subtraction, whatever the wrapped difference is — provided
/// `Vx` is not the flag register itself.
pub proof fn lemma_sub_borrow(pre: Cpu, post: Cpu)
    requires
        pre.wf(),
        sem_sub_xy(pre, post),
        nib2(pre.current_opcode) != 15,
    ensures
        ({
            let x = nib2(pre.current_opcode) as int;
            let y = nib1(pre.current_opcode) as int;
            let vx = pre.cpu_registers@[x];
            let vy = pre.cpu_registers@[y];
            &&& post.cpu_registers@[15] == (if vx > vy {
                1u8
            } else {
                0u8
            })
            &&& post.cpu_registers@[x] == wrap8(vx - vy)
        }),
{
    lemma_opcode_fields(pre.current_opcode);
}

/// SHR Vx captures the bit shifted out — the low bit of the original
/// value — in the flag register before `Vx` is halved, provided `Vx` is
/// not the flag register itself.
pub proof fn lemma_shr_captures_bit(pre: Cpu, post: Cpu)
    requires
        pre.wf(),
        sem_shr(pre, post),
        nib2(pre.current_opcode) != 15,
    ensures
        ({
            let x = nib2(pre.current_opcode) as int;
            let vx = pre.cpu_registers@[x];
            &&& post.cpu_registers@[15] == (vx % 2) as u8
            &&& post.cpu_registers@[x] == (vx / 2) as u8
        }),
{
    lemma_opcode_fields(pre.current_opcode);
}

/// SHL Vx captures the bit shifted out — the high bit of the original
/// value — in the flag register before `Vx` is doubled modulo 256,
/// provided `Vx` is not the flag register itself.
pub proof fn lemma_shl_captures_bit(pre: Cpu, post: Cpu)
    requires
        pre.wf(),
        sem_shl(pre, post),
        nib2(pre.current_opcode) != 15,
    ensures
        ({
            let x = nib2(pre.current_opcode) as int;
            let vx = pre.cpu_registers@[x];
            &&& post.cpu_registers@[15] == (if vx >= 128 {
                1u8
            } else {
                0u8
            })
            &&& post.cpu_registers@[x] == wrap8(2 * vx)
        }),
{
    lemma_opcode_fields(pre.current_opcode);
}

/// Drawing the same sprite at the same anchor twice restores the
/// framebuffer: the XOR toggle is its own inverse. The collision test of
/// the second draw reports exactly whether some visible sprite bit had
/// found its cell dark before the first draw.
pub proof fn lemma_draw_twice(g: Seq<bool>, mem: Seq<u8>, idx: int, x0: int, y0: int, n: int)
    requires
        g.len() == 2048,
        0 <= x0,
        0 <= y0,
    ensures
        draw_result(draw_result(g, mem, idx, x0, y0, n), mem, idx, x0, y0, n) == g,
        draw_collision(draw_result(g, mem, idx, x0, y0, n), mem, idx, x0, y0, n) == (exists|
            r: int,
            j: int,
        |
            lex_before(r, j, n, 0) && #[trigger] covers_at(mem, idx, x0, y0, r, j) && !g[pos_of(
                x0,
                y0,
                r,
                j,
            )]),
{
    let g1 = draw_result(g, mem, idx, x0, y0, n);
    assert forall|p: int| 0 <= p < 2048 implies g1[p] == (g[p] != covers_lex(
        mem,
        idx,
        x0,
        y0,
        n,
        0,
        p,
    )) by {}
    assert(draw_result(g1, mem, idx, x0, y0, n) =~= g);
    if draw_collision(g1, mem, idx, x0, y0, n) {
        let (r2, j2) = choose|r2: int, j2: int|
            lex_before(r2, j2, n, 0) && #[trigger] covers_at(mem, idx, x0, y0, r2, j2) && g1[
                pos_of(x0, y0, r2, j2)
            ];
        assert(covers_lex(mem, idx, x0, y0, n, 0, pos_of(x0, y0, r2, j2)));
        assert(0 <= pos_of(x0, y0, r2, j2) < 2048);
        assert(!g[pos_of(x0, y0, r2, j2)]);
    }
    if exists|r: int, j: int|
        lex_before(r, j, n, 0) && #[trigger] covers_at(mem, idx, x0, y0, r, j) && !g[pos_of(
            x0,
            y0,
            r,
            j,
        )] {
        let (r2, j2) = choose|r2: int, j2: int|
            lex_before(r2, j2, n, 0) && #[trigger] covers_at(mem, idx, x0, y0, r2, j2) && !g[
                pos_of(x0, y0, r2, j2)
            ];
        assert(covers_lex(mem, idx, x0, y0, n, 0, pos_of(x0, y0, r2, j2)));
        assert(0 <= pos_of(x0, y0, r2, j2) < 2048);
        assert(g1[pos_of(x0, y0, r2, j2)]);
        assert(collide_lex(g1, mem, idx, x0, y0, n, 0));
    }
}

/// The same law at the instruction level: two successive DRW steps with
/// the same opcode return the framebuffer to where it started; the second
/// draw's flag reports whether some visible sprite bit had found its cell
/// dark at the outset. `Vx` and `Vy` must not be the flag register, which
/// the first draw overwrites.
pub proof fn lemma_drw_twice(
    s0: Cpu,
    s1: Cpu,
    s2: Cpu,
    r1: Result<(), CpuError>,
    r2: Result<(), CpuError>,
)
    requires
        s0.wf(),
        sem_drw(s0, s1, r1),
        sem_drw(s1, s2, r2),
        r1 is Ok,
        nib2(s0.current_opcode) != 15,
        nib1(s0.current_opcode) != 15,
    ensures
        r2 is Ok,
        s2.graphics@ == s0.graphics@,
        ({
            let n = crate::cpu::nib0(s0.current_opcode) as int;
            let idx = s0.index_register as int;
            let x0 = s0.cpu_registers@[nib2(s0.current_opcode) as int] as int % 64;
            let y0 = s0.cpu_registers@[nib1(s0.current_opcode) as int] as int % 32;
            s2.cpu_registers@[15] == (if exists|r: int, j: int|
                lex_before(r, j, n, 0) && #[trigger] covers_at(
                    s0.memory@,
                    idx,
                    x0,
                    y0,
                    r,
                    j,
                ) && !s0.graphics@[pos_of(x0, y0, r, j)] {
                1u8
            } else {
                0u8
            })
        }),
{
    lemma_opcode_fields(s0.current_opcode);
    let n = crate::cpu::nib0(s0.current_opcode) as int;
    let idx = s0.index_register as int;
    let x0 = s0.cpu_registers@[nib2(s0.current_opcode) as int] as int % 64;
    let y0 = s0.cpu_registers@[nib1(s0.current_opcode) as int] as int % 32;
    assert(s1.cpu_registers@[nib2(s0.current_opcode) as int]
        == s0.cpu_registers@[nib2(s0.current_opcode) as int]);
    assert(s1.cpu_registers@[nib1(s0.current_opcode) as int]
        == s0.cpu_registers@[nib1(s0.current_opcode) as int]);
    lemma_draw_twice(s0.graphics@, s0.memory@, idx, x0, y0, n);
}

/// CLS followed by a successful DRW leaves lit exactly the cells the
/// sprite's visible bits cover, and nothing else.
pub proof fn lemma_cls_then_draw(
    s0: Cpu,
    s1: Cpu,
    s2: Cpu,
    r: Result<(), CpuError>,
)
    requires
        s0.wf(),
        sem_cls(s0, s1),
        sem_drw(s1, s2, r),
        r is Ok,
    ensures
        ({
            let n = crate::cpu::nib0(s1.current_opcode) as int;
            let idx = s1.index_register as int;
            let x0 = s1.cpu_registers@[nib2(s1.current_opcode) as int] as int % 64;
            let y0 = s1.cpu_registers@[nib1(s1.current_opcode) as int] as int % 32;
            forall|p: int|
                0 <= p < 2048 ==> s2.graphics@[p] == covers_lex(
                    s1.memory@,
                    idx,
                    x0,
                    y0,
                    n,
                    0,
                    p,
                )
        }),
{
}

/// RET after CALL restores exactly the program counter that was current
/// immediately before the CALL executed (not CALL's jump target), and
/// brings the stack pointer back.
pub proof fn lemma_call_then_ret(
    s0: Cpu,
    s1: Cpu,
    s2: Cpu,
    r1: Result<(), CpuError>,
    r2: Result<(), CpuError>,
)
    requires
        s0.wf(),
        s0.stack_pointer < 16,
        sem_call(s0, s1, r1),
        sem_ret(s1, s2, r2),
    ensures
        r1 is Ok,
        r2 is Ok,
        s2.program_counter == s0.program_counter,
        s2.stack_pointer == s0.stack_pointer,
{
}

/// LD F, Vx points the index register at the glyph of the digit in `Vx`;
/// a following LD Vx, [I] with `x = 4` — five bytes — reproduces that
/// glyph sprite in registers `V0..V4` bit for bit. The state `s1` is `sf`
/// after the next fetch replaced the opcode.
pub proof fn lemma_font_then_load(
    s0: Cpu,
    sf: Cpu,
    s1: Cpu,
    s2: Cpu,
    r: Result<(), CpuError>,
)
    requires
        s0.wf(),
        fontset_loaded(s0.memory@),
        s0.cpu_registers@[nib2(s0.current_opcode) as int] < 16,
        sem_font(s0, sf),
        eq_mem(sf, s1),
        eq_regs(sf, s1),
        eq_index(sf, s1),
        eq_stack(sf, s1),
        eq_keypad(sf, s1),
        nib2(s1.current_opcode) == 4,
        sem_load_regs(s1, s2, r),
    ensures
        r is Ok,
        forall|j: int|
            0 <= j < 5 ==> s2.cpu_registers@[j] == font_set()[5 * s0.cpu_registers@[nib2(
                s0.current_opcode,
            ) as int] + j],
{
    lemma_opcode_fields(s0.current_opcode);
    let d = s0.cpu_registers@[nib2(s0.current_opcode) as int] as int;
    assert(s1.index_register == 0x50 + 5 * d);
    assert forall|j: int| 0 <= j < 5 implies s2.cpu_registers@[j] == font_set()[5 * d + j] by {
        assert(s2.cpu_registers@[j] == s1.memory@[0x50 + 5 * d + j]);
        assert(s1.memory@[0x50 + (5 * d + j)] == font_set()[5 * d + j]);
    }
}

} // verus!
