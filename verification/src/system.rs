//! The executable CHIP-8 machine.
//!
//! `System` owns the whole machine state. `new` builds it from a
//! program image, `frame` runs one host-driven tick, and `tick` runs
//! one instruction. Every mutation is proved to follow the model in
//! `crate::model`.

use vstd::prelude::*;
use crate::model::{
    MachineView, StepOutcome, StepError,
    font, initial_mem, initial_view, fetch_ok, opcode_at,
    op_hi, op_x, op_y, op_nnn, op_kk, op_n,
    col_weight, sprite_bit, pix, row_offset, col_offset,
    pair_done, draw_display, draw_display_partial, collides_at, lemma_row_wrap, lemma_col_wrap,
    draw_collision, draw_collision_partial, alu,
    step_spec, tick_timers, step_matches, frame_matches,
};

verus! {

/// The machine: memory, registers, address register, program counter,
/// call stack, timers, display, key latches and the key-wait state.
pub struct System {
    mem: Vec<u8>,
    reg: Vec<u8>,
    i: u16,
    pc: u16,
    sp: u8,
    stack: Vec<u16>,
    delay: u8,
    sound: u8,
    display: Vec<bool>,
    buttons: Vec<bool>,
    waiting_for_key: bool,
    insert_key_at: u8,
}

impl View for System {
    type V = MachineView;

    closed spec fn view(&self) -> MachineView {
        MachineView {
            mem: self.mem@,
            reg: self.reg@,
            i: self.i,
            pc: self.pc,
            sp: self.sp as int,
            stack: self.stack@,
            delay: self.delay,
            sound: self.sound,
            display: self.display@,
            buttons: self.buttons@,
            waiting_for_key: self.waiting_for_key,
            insert_key_at: self.insert_key_at,
        }
    }
}

/// A vector of `n` zero bytes.
fn zero_bytes(n: usize) -> (v: Vec<u8>)
    ensures
        v@ == Seq::new(n as nat, |k: int| 0u8),
{
    let mut v: Vec<u8> = Vec::new();
    let mut k: usize = 0;
    while k < n
        invariant
            k <= n,
            v@.len() == k,
            forall|j: int| 0 <= j < k ==> v@[j] == 0u8,
        decreases n - k,
    {
        v.push(0);
        k += 1;
    }
    proof {
        assert(v@ =~= Seq::new(n as nat, |k: int| 0u8));
    }
    v
}

/// A vector of `n` zero words.
fn zero_words(n: usize) -> (v: Vec<u16>)
    ensures
        v@ == Seq::new(n as nat, |k: int| 0u16),
{
    let mut v: Vec<u16> = Vec::new();
    let mut k: usize = 0;
    while k < n
        invariant
            k <= n,
            v@.len() == k,
            forall|j: int| 0 <= j < k ==> v@[j] == 0u16,
        decreases n - k,
    {
        v.push(0);
        k += 1;
    }
    proof {
        assert(v@ =~= Seq::new(n as nat, |k: int| 0u16));
    }
    v
}

/// A vector of `n` cleared flags.
fn cleared_flags(n: usize) -> (v: Vec<bool>)
    ensures
        v@ == Seq::new(n as nat, |k: int| false),
{
    let mut v: Vec<bool> = Vec::new();
    let mut k: usize = 0;
    while k < n
        invariant
            k <= n,
            v@.len() == k,
            forall|j: int| 0 <= j < k ==> v@[j] == false,
        decreases n - k,
    {
        v.push(false);
        k += 1;
    }
    proof {
        assert(v@ =~= Seq::new(n as nat, |k: int| false));
    }
    v
}

/// The built-in font bytes, matching `font()`.
fn font_table() -> (v: Vec<u8>)
    ensures
        v@ == font(),
{
    let v: Vec<u8> = vec![
        0xF0, 0x90, 0x90, 0x90, 0xF0,
        0x20, 0x60, 0x20, 0x20, 0x70,
        0xF0, 0x10, 0xF0, 0x80, 0xF0,
        0xF0, 0x10, 0xF0, 0x10, 0xF0,
        0x90, 0x90, 0xF0, 0x10, 0x10,
        0xF0, 0x80, 0xF0, 0x10, 0xF0,
        0xF0, 0x80, 0xF0, 0x90, 0xF0,
        0xF0, 0x10, 0x20, 0x40, 0x40,
        0xF0, 0x90, 0xF0, 0x90, 0xF0,
        0xF0, 0x90, 0xF0, 0x10, 0xF0,
        0xF0, 0x90, 0xF0, 0x90, 0x90,
        0xE0, 0x90, 0xE0, 0x90, 0xE0,
        0xF0, 0x80, 0x80, 0x80, 0xF0,
        0xE0, 0x90, 0x90, 0x90, 0xE0,
        0xF0, 0x80, 0xF0, 0x80, 0xF0,
        0xF0, 0x80, 0xF0, 0x80, 0x80,
    ];
    proof {
        assert(v@ =~= font());
    }
    v
}

/// The uniform random byte the random instruction masks. Relies on
/// rand 0.8: `rand::Rng::gen_range` over `0..=255` on the thread-local
/// generator returns a byte and panics only on an empty range, which
/// `0..=255` is not. Nothing is assumed about the value itself.
#[verifier::external_body]
fn random_byte() -> u8 {
    rand::Rng::gen_range(&mut rand::thread_rng(), 0..=255u8)
}

impl System {
    /// The machine is well formed: all buffers have their fixed sizes
    /// and the stack pointer and stored return addresses are in range.
    pub open spec fn wf(&self) -> bool {
        self@.wf()
    }

    /// Build a machine from a program image: font at the bottom of
    /// memory, the program at 0x200, everything else zeroed, and the
    /// program counter at 0x200. A program longer than 3584 bytes is
    /// truncated to the 3584 bytes that fit; this mirrors the memory
    /// map and is deliberate, not an error.
    pub fn new(program: &Vec<u8>) -> (s: System)
        ensures
            s@ == initial_view(program@),
            s.wf(),
    {
        let ghost target = initial_mem(program@);
        let mut mem = font_table();
        let mut k: usize = 80;
        while k < 0x200
            invariant
                80 <= k <= 0x200,
                mem@.len() == k,
                forall|j: int| 0 <= j < k ==> mem@[j] == target[j],
                target == initial_mem(program@),
            decreases 0x200 - k,
        {
            mem.push(0);
            k += 1;
        }
        let mut j: usize = 0;
        while j < 3584
            invariant
                j <= 3584,
                mem@.len() == 0x200 + j,
                forall|q: int| 0 <= q < mem@.len() ==> mem@[q] == target[q],
                target == initial_mem(program@),
            decreases 3584 - j,
        {
            if j < program.len() {
                mem.push(program[j]);
            } else {
                mem.push(0);
            }
            j += 1;
        }
        proof {
            assert(mem@ =~= target);
        }
        let s = System {
            mem,
            reg: zero_bytes(16),
            i: 0,
            pc: 0x200,
            sp: 0,
            stack: zero_words(16),
            delay: 0,
            sound: 0,
            display: cleared_flags(2048),
            buttons: cleared_flags(16),
            waiting_for_key: false,
            insert_key_at: 0,
        };
        proof {
            assert(s@ == initial_view(program@));
        }
        s
    }

    /// The program counter.
    pub fn pc(&self) -> (r: u16)
        ensures
            r == self@.pc,
    {
        self.pc
    }

    /// The address register I.
    pub fn addr_reg(&self) -> (r: u16)
        ensures
            r == self@.i,
    {
        self.i
    }

    /// General-purpose register `x`.
    pub fn reg(&self, x: u8) -> (r: u8)
        requires
            self.wf(),
            x < 16,
        ensures
            r == self@.reg[x as int],
    {
        self.reg[x as usize]
    }

    /// The delay timer.
    pub fn delay_timer(&self) -> (r: u8)
        ensures
            r == self@.delay,
    {
        self.delay
    }

    /// The sound timer.
    pub fn sound_timer(&self) -> (r: u8)
        ensures
            r == self@.sound,
    {
        self.sound
    }

    /// How many return addresses are on the call stack.
    pub fn stack_depth(&self) -> (r: u8)
        ensures
            r as int == self@.sp,
    {
        self.sp
    }

    /// Whether the machine is suspended waiting for a key.
    pub fn is_waiting_for_key(&self) -> (r: bool)
        ensures
            r == self@.waiting_for_key,
    {
        self.waiting_for_key
    }

    /// One byte of memory.
    pub fn mem_at(&self, addr: u16) -> (r: u8)
        requires
            self.wf(),
            addr < 4096,
        ensures
            r == self@.mem[addr as int],
    {
        self.mem[addr as usize]
    }

    /// One display pixel, row-major; true is lit.
    pub fn pixel(&self, row: usize, col: usize) -> (r: bool)
        requires
            self.wf(),
            row < 32,
            col < 64,
        ensures
            r == self@.display[row * 64 + col],
    {
        self.display[row * 64 + col]
    }

    /// Set or clear one key latch. This is the host's write access to
    /// the input state; the machine itself only reads the latches.
    pub fn set_key(&mut self, key: u8, down: bool)
        requires
            old(self).wf(),
            key < 16,
        ensures
            final(self)@ == (MachineView {
                buttons: old(self)@.buttons.update(key as int, down),
                ..old(self)@
            }),
            final(self).wf(),
    {
        self.buttons.set(key as usize, down);
    }

    /// Draw the n-row sprite at memory address I with origin
    /// (vx, vy): XOR every sprite bit into the wrapped target pixel,
    /// and leave 1 in the flags register exactly when some 1 bit
    /// landed on an already-lit pixel.
    fn draw_sprite(&mut self, vx: u8, vy: u8, n: usize)
        requires
            old(self).wf(),
            n <= 15,
            n > 0 ==> old(self)@.i + n <= 4096,
        ensures
            final(self).wf(),
            final(self)@ == (MachineView {
                display: draw_display(old(self)@, vx, vy, n as int),
                reg: old(self)@.reg.update(15,
                    if draw_collision(old(self)@, vx, vy, n as int) { 1u8 } else { 0u8 }),
                ..old(self)@
            }),
    {
        let ghost pre = self@;
        self.reg.set(15, 0);
        proof {
            assert(draw_display_partial(pre, vx, vy, n as int, 0, 0) =~= pre.display);
            assert(!draw_collision_partial(pre, vx, vy, 0, 0));
        }
        let mut r: usize = 0;
        while r < n
            invariant
                r <= n,
                n <= 15,
                pre.wf(),
                n > 0 ==> pre.i + n <= 4096,
                self@ == (MachineView {
                    display: draw_display_partial(pre, vx, vy, n as int, r as int, 0),
                    reg: pre.reg.update(15,
                        if draw_collision_partial(pre, vx, vy, r as int, 0) { 1u8 } else { 0u8 }),
                    ..pre
                }),
            decreases n - r,
        {
            let byte: u8 = self.mem[self.i as usize + r];
            let mut c: usize = 0;
            while c < 8
                invariant
                    c <= 8,
                    r < n,
                    n <= 15,
                    pre.wf(),
                    pre.i + n <= 4096,
                    byte == pre.mem[pre.i + r as int],
                    self@ == (MachineView {
                        display: draw_display_partial(pre, vx, vy, n as int, r as int, c as int),
                        reg: pre.reg.update(15,
                            if draw_collision_partial(pre, vx, vy, r as int, c as int) {
                                1u8
                            } else {
                                0u8
                            }),
                        ..pre
                    }),
                decreases 8 - c,
            {
                let dy: usize = (vy as usize + r) % 32;
                let dx: usize = (vx as usize + c) % 64;
                let weight: u8 = match c {
                    0 => 128,
                    1 => 64,
                    2 => 32,
                    3 => 16,
                    4 => 8,
                    5 => 4,
                    6 => 2,
                    _ => 1,
                };
                let w: bool = (byte / weight) % 2 == 1;
                let idx: usize = dy * 64 + dx;
                let ghost dcur = draw_display_partial(pre, vx, vy, n as int, r as int, c as int);
                let p: bool = self.display[idx];
                proof {
                    assert(weight as int == col_weight(c as int));
                    assert(w == sprite_bit(byte, c as int));
                    lemma_row_wrap(vy, dy as int, r as int);
                    lemma_col_wrap(vx, dx as int, c as int);
                    assert(row_offset(vy, idx as int / 64) == r as int);
                    assert(col_offset(vx, idx as int % 64) == c as int);
                    assert(!pair_done(r as int, c as int, r as int, c as int));
                    assert(p == pre.display[idx as int]);
                }
                if p && w {
                    self.reg.set(15, 1);
                }
                self.display.set(idx, p != w);
                proof {
                    let ri = r as int;
                    let ci = c as int;
                    assert(pre.reg.update(15, 0u8).update(15, 1u8) =~= pre.reg.update(15, 1u8));
                    assert(pre.reg.update(15, 1u8).update(15, 1u8) =~= pre.reg.update(15, 1u8));
                    let dnext = draw_display_partial(pre, vx, vy, n as int, ri, ci + 1);
                    assert forall|j: int| 0 <= j < 2048 implies
                        dnext[j] == dcur.update(idx as int, p != w)[j] by {
                        let rr = row_offset(vy, j / 64);
                        let cc = col_offset(vx, j % 64);
                        if j == idx as int {
                            assert(dnext[j] == (pre.display[j] != sprite_bit(
                                pre.mem[pre.i + ri], ci)));
                        } else {
                            if 0 <= rr < 32 && 0 <= cc < 8 && rr == ri && cc == ci {
                                lemma_row_wrap(vy, j / 64, rr);
                                lemma_col_wrap(vx, j % 64, cc);
                                assert(j / 64 == (vy + ri) % 32);
                                assert(j % 64 == (vx + ci) % 64);
                                assert(j == idx as int);
                            }
                            assert(pair_done(ri, ci + 1, rr, cc) == pair_done(ri, ci, rr, cc));
                            assert(dnext[j] == dcur[j]);
                        }
                    }
                    assert(dnext =~= dcur.update(idx as int, p != w));
                    if draw_collision_partial(pre, vx, vy, ri, ci) {
                        let (ar, ac) = choose|ar: int, ac: int|
                            0 <= ar && 0 <= ac < 8 && pair_done(ri, ci, ar, ac)
                            && #[trigger] collides_at(pre, vx, vy, ar, ac);
                        assert(pair_done(ri, ci + 1, ar, ac));
                        assert(draw_collision_partial(pre, vx, vy, ri, ci + 1));
                    }
                    if p && w {
                        assert(pix((vy + ri) % 32, (vx + ci) % 64) == idx as int);
                        assert(collides_at(pre, vx, vy, ri, ci));
                        assert(draw_collision_partial(pre, vx, vy, ri, ci + 1));
                    } else {
                        if draw_collision_partial(pre, vx, vy, ri, ci + 1) {
                            let (ar, ac) = choose|ar: int, ac: int|
                                0 <= ar && 0 <= ac < 8 && pair_done(ri, ci + 1, ar, ac)
                                && #[trigger] collides_at(pre, vx, vy, ar, ac);
                            if ar == ri && ac == ci {
                                assert(pix((vy + ri) % 32, (vx + ci) % 64) == idx as int);
                                assert(false);
                            }
                            assert(pair_done(ri, ci, ar, ac));
                            assert(draw_collision_partial(pre, vx, vy, ri, ci));
                        }
                    }
                }
                c += 1;
            }
            proof {
                let ri = r as int;
                assert(draw_display_partial(pre, vx, vy, n as int, ri, 8)
                    =~= draw_display_partial(pre, vx, vy, n as int, ri + 1, 0));
                if draw_collision_partial(pre, vx, vy, ri, 8) {
                    let (ar, ac) = choose|ar: int, ac: int|
                        0 <= ar && 0 <= ac < 8 && pair_done(ri, 8, ar, ac)
                        && #[trigger] collides_at(pre, vx, vy, ar, ac);
                    assert(pair_done(ri + 1, 0, ar, ac));
                    assert(draw_collision_partial(pre, vx, vy, ri + 1, 0));
                }
                if draw_collision_partial(pre, vx, vy, ri + 1, 0) {
                    let (ar, ac) = choose|ar: int, ac: int|
                        0 <= ar && 0 <= ac < 8 && pair_done(ri + 1, 0, ar, ac)
                        && #[trigger] collides_at(pre, vx, vy, ar, ac);
                    assert(pair_done(ri, 8, ar, ac));
                    assert(draw_collision_partial(pre, vx, vy, ri, 8));
                }
            }
            r += 1;
        }
        proof {
            let ni = n as int;
            assert(draw_display_partial(pre, vx, vy, ni, ni, 0)
                =~= draw_display(pre, vx, vy, ni));
            if draw_collision_partial(pre, vx, vy, ni, 0) {
                let (ar, ac) = choose|ar: int, ac: int|
                    0 <= ar && 0 <= ac < 8 && pair_done(ni, 0, ar, ac)
                    && #[trigger] collides_at(pre, vx, vy, ar, ac);
                assert(draw_collision(pre, vx, vy, ni));
            }
            if draw_collision(pre, vx, vy, ni) {
                let (ar, ac) = choose|ar: int, ac: int|
                    0 <= ar < ni && 0 <= ac < 8
                    && #[trigger] collides_at(pre, vx, vy, ar, ac);
                assert(pair_done(ni, 0, ar, ac));
                assert(draw_collision_partial(pre, vx, vy, ni, 0));
            }
        }
    }

    /// Copy registers 0 through x into memory at addresses I through
    /// I + x.
    fn store_regs(&mut self, x: usize)
        requires
            old(self).wf(),
            x < 16,
            old(self)@.i + x < 4096,
        ensures
            final(self).wf(),
            final(self)@ == (MachineView {
                mem: Seq::new(4096, |idx: int|
                    if old(self)@.i <= idx <= old(self)@.i + x {
                        old(self)@.reg[idx - old(self)@.i]
                    } else {
                        old(self)@.mem[idx]
                    }),
                ..old(self)@
            }),
    {
        let ghost pre = self@;
        let base: usize = self.i as usize;
        proof {
            assert(Seq::new(4096, |idx: int|
                if base <= idx < base { pre.reg[idx - base] } else { pre.mem[idx] })
                =~= pre.mem);
        }
        let mut k: usize = 0;
        while k <= x
            invariant
                k <= x + 1,
                x < 16,
                pre.wf(),
                pre.i + x < 4096,
                base == pre.i,
                self@ == (MachineView {
                    mem: Seq::new(4096, |idx: int|
                        if base <= idx < base + k { pre.reg[idx - base] } else { pre.mem[idx] }),
                    ..pre
                }),
            decreases x + 1 - k,
        {
            self.mem.set(base + k, self.reg[k]);
            proof {
                assert(Seq::new(4096, |idx: int|
                    if base <= idx < base + k + 1 { pre.reg[idx - base] } else { pre.mem[idx] })
                    =~= Seq::new(4096, |idx: int|
                        if base <= idx < base + k { pre.reg[idx - base] } else { pre.mem[idx] })
                        .update(base + k, pre.reg[k as int]));
            }
            k += 1;
        }
        proof {
            assert(Seq::new(4096, |idx: int|
                if base <= idx < base + x + 1 { pre.reg[idx - base] } else { pre.mem[idx] })
                =~= Seq::new(4096, |idx: int|
                    if pre.i <= idx <= pre.i + x { pre.reg[idx - pre.i] } else { pre.mem[idx] }));
        }
    }

    /// Fill registers 0 through x from memory at addresses I through
    /// I + x.
    fn load_regs(&mut self, x: usize)
        requires
            old(self).wf(),
            x < 16,
            old(self)@.i + x < 4096,
        ensures
            final(self).wf(),
            final(self)@ == (MachineView {
                reg: Seq::new(16, |k: int|
                    if k <= x { old(self)@.mem[old(self)@.i + k] } else { old(self)@.reg[k] }),
                ..old(self)@
            }),
    {
        let ghost pre = self@;
        let base: usize = self.i as usize;
        proof {
            assert(Seq::new(16, |k: int|
                if k < 0 { pre.mem[pre.i + k] } else { pre.reg[k] }) =~= pre.reg);
        }
        let mut k: usize = 0;
        while k <= x
            invariant
                k <= x + 1,
                x < 16,
                pre.wf(),
                pre.i + x < 4096,
                base == pre.i,
                self@ == (MachineView {
                    reg: Seq::new(16, |q: int|
                        if q < k { pre.mem[pre.i + q] } else { pre.reg[q] }),
                    ..pre
                }),
            decreases x + 1 - k,
        {
            self.reg.set(k, self.mem[base + k]);
            proof {
                assert(Seq::new(16, |q: int|
                    if q < k + 1 { pre.mem[pre.i + q] } else { pre.reg[q] })
                    =~= Seq::new(16, |q: int|
                        if q < k { pre.mem[pre.i + q] } else { pre.reg[q] })
                        .update(k as int, pre.mem[pre.i + k as int]));
            }
            k += 1;
        }
        proof {
            assert(Seq::new(16, |q: int|
                if q < x + 1 { pre.mem[pre.i + q] } else { pre.reg[q] })
                =~= Seq::new(16, |q: int|
                    if q <= x { pre.mem[pre.i + q] } else { pre.reg[q] }));
        }
    }

    /// Fetch, decode and execute exactly one instruction, as
    /// `step_spec` describes for some byte from the random-number
    /// generator. On an error the machine is left untouched. The
    /// machine must not be suspended in a key wait: while it waits,
    /// no instruction is fetched; a host drives `frame` instead.
    #[verifier::rlimit(50)]
    pub fn tick(&mut self) -> (res: Result<StepOutcome, StepError>)
        requires
            old(self).wf(),
            !old(self)@.waiting_for_key,
        ensures
            final(self).wf(),
            (exists|r: u8| #[trigger] step_matches(old(self)@, r, res, final(self)@)),
    {
        let ghost pre = self@;
        if self.pc >= 4095 {
            proof {
                assert(step_matches(pre, 0u8,
                    Err::<StepOutcome, StepError>(StepError::PcOutOfBounds), self@));
            }
            return Err(StepError::PcOutOfBounds);
        }
        let op: u16 = (self.mem[self.pc as usize] as u16) * 256
            + (self.mem[self.pc as usize + 1] as u16);
        let hi: u16 = op / 0x1000;
        let x: usize = ((op as usize) / 0x100) % 16;
        let y: usize = ((op as usize) / 16) % 16;
        let nnn: u16 = op % 0x1000;
        let kk: u8 = (op % 0x100) as u8;
        let n: usize = (op as usize) % 16;
        let vx: u8 = self.reg[x];
        let vy: u8 = self.reg[y];
        proof {
            assert(fetch_ok(pre));
            assert(op == opcode_at(pre));
            assert(hi as int == op_hi(op));
            assert(x as int == op_x(op));
            assert(y as int == op_y(op));
            assert(nnn == op_nnn(op));
            assert(kk == op_kk(op));
            assert(n as int == op_n(op));
        }
        if hi == 0x0 {
            let low8: u16 = op % 256;
            if low8 == 0xE0 {
                self.display = cleared_flags(2048);
                self.pc = self.pc + 2;
                proof {
                    assert(step_matches(pre, 0u8,
                        Ok::<StepOutcome, StepError>(StepOutcome::Executed), self@));
                }
                Ok(StepOutcome::Executed)
            } else if low8 == 0xEE {
                if self.sp == 0 {
                    proof {
                        assert(step_matches(pre, 0u8,
                            Err::<StepOutcome, StepError>(StepError::StackUnderflow), self@));
                    }
                    return Err(StepError::StackUnderflow);
                }
                self.sp = self.sp - 1;
                let ret: u16 = self.stack[self.sp as usize];
                self.pc = ret + 2;
                proof {
                    assert(step_matches(pre, 0u8,
                        Ok::<StepOutcome, StepError>(StepOutcome::Executed), self@));
                }
                Ok(StepOutcome::Executed)
            } else {
                self.pc = self.pc + 2;
                proof {
                    assert(step_matches(pre, 0u8,
                        Ok::<StepOutcome, StepError>(StepOutcome::UnknownOpcode(op)), self@));
                }
                Ok(StepOutcome::UnknownOpcode(op))
            }
        } else if hi == 0x1 {
            self.pc = nnn;
            proof {
                assert(step_matches(pre, 0u8,
                    Ok::<StepOutcome, StepError>(StepOutcome::Executed), self@));
            }
            Ok(StepOutcome::Executed)
        } else if hi == 0x2 {
            if self.sp == 16 {
                proof {
                    assert(step_matches(pre, 0u8,
                        Err::<StepOutcome, StepError>(StepError::StackOverflow), self@));
                }
                return Err(StepError::StackOverflow);
            }
            self.stack.set(self.sp as usize, self.pc);
            self.sp = self.sp + 1;
            self.pc = nnn;
            proof {
                assert(step_matches(pre, 0u8,
                    Ok::<StepOutcome, StepError>(StepOutcome::Executed), self@));
            }
            Ok(StepOutcome::Executed)
        } else if hi == 0x3 {
            if vx == kk {
                self.pc = self.pc + 4;
            } else {
                self.pc = self.pc + 2;
            }
            proof {
                assert(step_matches(pre, 0u8,
                    Ok::<StepOutcome, StepError>(StepOutcome::Executed), self@));
            }
            Ok(StepOutcome::Executed)
        } else if hi == 0x4 {
            if vx != kk {
                self.pc = self.pc + 4;
            } else {
                self.pc = self.pc + 2;
            }
            proof {
                assert(step_matches(pre, 0u8,
                    Ok::<StepOutcome, StepError>(StepOutcome::Executed), self@));
            }
            Ok(StepOutcome::Executed)
        } else if hi == 0x5 {
            if vx == vy {
                self.pc = self.pc + 4;
            } else {
                self.pc = self.pc + 2;
            }
            proof {
                assert(step_matches(pre, 0u8,
                    Ok::<StepOutcome, StepError>(StepOutcome::Executed), self@));
            }
            Ok(StepOutcome::Executed)
        } else if hi == 0x6 {
            self.reg.set(x, kk);
            self.pc = self.pc + 2;
            proof {
                assert(step_matches(pre, 0u8,
                    Ok::<StepOutcome, StepError>(StepOutcome::Executed), self@));
            }
            Ok(StepOutcome::Executed)
        } else if hi == 0x7 {
            let sum: u16 = vx as u16 + kk as u16;
            self.reg.set(x, (sum % 256) as u8);
            self.pc = self.pc + 2;
            proof {
                assert(step_matches(pre, 0u8,
                    Ok::<StepOutcome, StepError>(StepOutcome::Executed), self@));
            }
            Ok(StepOutcome::Executed)
        } else if hi == 0x8 {
            let low: u16 = op % 16;
            if low == 0x0 {
                self.reg.set(x, vy);
            } else if low == 0x1 {
                self.reg.set(x, vx | vy);
            } else if low == 0x2 {
                self.reg.set(x, vx & vy);
            } else if low == 0x3 {
                self.reg.set(x, vx ^ vy);
            } else if low == 0x4 {
                let sum: u16 = vx as u16 + vy as u16;
                self.reg.set(x, (sum % 256) as u8);
                self.reg.set(15, if sum >= 256 { 1 } else { 0 });
            } else if low == 0x5 {
                if vx >= vy {
                    self.reg.set(x, vx - vy);
                    self.reg.set(15, 1);
                } else {
                    let d: u16 = vx as u16 + 256 - vy as u16;
                    self.reg.set(x, d as u8);
                    self.reg.set(15, 0);
                }
            } else if low == 0x6 {
                self.reg.set(15, vx % 2);
                self.reg.set(x, vx / 2);
            } else if low == 0x7 {
                if vy >= vx {
                    self.reg.set(x, vy - vx);
                    self.reg.set(15, 1);
                } else {
                    let d: u16 = vy as u16 + 256 - vx as u16;
                    self.reg.set(x, d as u8);
                    self.reg.set(15, 0);
                }
            } else if low == 0xE {
                self.reg.set(15, vx / 128);
                self.reg.set(x, ((vx as u16 * 2) % 256) as u8);
            } else {
                self.pc = self.pc + 2;
                proof {
                    assert(alu(pre, op) is None);
                    assert(step_matches(pre, 0u8,
                        Ok::<StepOutcome, StepError>(StepOutcome::UnknownOpcode(op)), self@));
                }
                return Ok(StepOutcome::UnknownOpcode(op));
            }
            self.pc = self.pc + 2;
            proof {
                assert(step_matches(pre, 0u8,
                    Ok::<StepOutcome, StepError>(StepOutcome::Executed), self@));
            }
            Ok(StepOutcome::Executed)
        } else if hi == 0x9 {
            if vx != vy {
                self.pc = self.pc + 4;
            } else {
                self.pc = self.pc + 2;
            }
            proof {
                assert(step_matches(pre, 0u8,
                    Ok::<StepOutcome, StepError>(StepOutcome::Executed), self@));
            }
            Ok(StepOutcome::Executed)
        } else if hi == 0xA {
            self.i = nnn;
            self.pc = self.pc + 2;
            proof {
                assert(step_matches(pre, 0u8,
                    Ok::<StepOutcome, StepError>(StepOutcome::Executed), self@));
            }
            Ok(StepOutcome::Executed)
        } else if hi == 0xB {
            self.pc = nnn + (self.reg[0] as u16);
            proof {
                assert(step_matches(pre, 0u8,
                    Ok::<StepOutcome, StepError>(StepOutcome::Executed), self@));
            }
            Ok(StepOutcome::Executed)
        } else if hi == 0xC {
            let rnd: u8 = random_byte();
            self.reg.set(x, rnd & kk);
            self.pc = self.pc + 2;
            proof {
                assert(step_matches(pre, rnd,
                    Ok::<StepOutcome, StepError>(StepOutcome::Executed), self@));
            }
            Ok(StepOutcome::Executed)
        } else if hi == 0xD {
            if n > 0 && self.i as usize + n > 4096 {
                proof {
                    assert(step_matches(pre, 0u8,
                        Err::<StepOutcome, StepError>(StepError::MemoryOutOfBounds), self@));
                }
                return Err(StepError::MemoryOutOfBounds);
            }
            self.draw_sprite(vx, vy, n);
            self.pc = self.pc + 2;
            proof {
                assert(step_matches(pre, 0u8,
                    Ok::<StepOutcome, StepError>(StepOutcome::Executed), self@));
            }
            Ok(StepOutcome::Executed)
        } else if hi == 0xE {
            let low8: u16 = op % 256;
            if low8 == 0x9E {
                if vx >= 16 {
                    proof {
                        assert(step_matches(pre, 0u8,
                            Err::<StepOutcome, StepError>(StepError::KeyOutOfRange), self@));
                    }
                    return Err(StepError::KeyOutOfRange);
                }
                if self.buttons[vx as usize] {
                    self.pc = self.pc + 4;
                } else {
                    self.pc = self.pc + 2;
                }
                proof {
                    assert(step_matches(pre, 0u8,
                        Ok::<StepOutcome, StepError>(StepOutcome::Executed), self@));
                }
                Ok(StepOutcome::Executed)
            } else if low8 == 0xA1 {
                if vx >= 16 {
                    proof {
                        assert(step_matches(pre, 0u8,
                            Err::<StepOutcome, StepError>(StepError::KeyOutOfRange), self@));
                    }
                    return Err(StepError::KeyOutOfRange);
                }
                if !self.buttons[vx as usize] {
                    self.pc = self.pc + 4;
                } else {
                    self.pc = self.pc + 2;
                }
                proof {
                    assert(step_matches(pre, 0u8,
                        Ok::<StepOutcome, StepError>(StepOutcome::Executed), self@));
                }
                Ok(StepOutcome::Executed)
            } else {
                self.pc = self.pc + 2;
                proof {
                    assert(step_matches(pre, 0u8,
                        Ok::<StepOutcome, StepError>(StepOutcome::UnknownOpcode(op)), self@));
                }
                Ok(StepOutcome::UnknownOpcode(op))
            }
        } else {
            let low8: u16 = op % 256;
            if low8 == 0x07 {
                self.reg.set(x, self.delay);
                self.pc = self.pc + 2;
                proof {
                    assert(step_matches(pre, 0u8,
                        Ok::<StepOutcome, StepError>(StepOutcome::Executed), self@));
                }
                Ok(StepOutcome::Executed)
            } else if low8 == 0x0A {
                self.waiting_for_key = true;
                self.insert_key_at = x as u8;
                self.pc = self.pc + 2;
                proof {
                    assert(step_matches(pre, 0u8,
                        Ok::<StepOutcome, StepError>(StepOutcome::Executed), self@));
                }
                Ok(StepOutcome::Executed)
            } else if low8 == 0x15 {
                self.delay = vx;
                self.pc = self.pc + 2;
                proof {
                    assert(step_matches(pre, 0u8,
                        Ok::<StepOutcome, StepError>(StepOutcome::Executed), self@));
                }
                Ok(StepOutcome::Executed)
            } else if low8 == 0x18 {
                self.sound = vx;
                self.pc = self.pc + 2;
                proof {
                    assert(step_matches(pre, 0u8,
                        Ok::<StepOutcome, StepError>(StepOutcome::Executed), self@));
                }
                Ok(StepOutcome::Executed)
            } else if low8 == 0x1E {
                let sum: u32 = self.i as u32 + vx as u32;
                self.i = (sum % 0x10000) as u16;
                self.reg.set(15, if sum >= 0x10000 { 1 } else { 0 });
                self.pc = self.pc + 2;
                proof {
                    assert(step_matches(pre, 0u8,
                        Ok::<StepOutcome, StepError>(StepOutcome::Executed), self@));
                }
                Ok(StepOutcome::Executed)
            } else if low8 == 0x29 {
                self.i = vx as u16 * 5;
                self.pc = self.pc + 2;
                proof {
                    assert(step_matches(pre, 0u8,
                        Ok::<StepOutcome, StepError>(StepOutcome::Executed), self@));
                }
                Ok(StepOutcome::Executed)
            } else if low8 == 0x33 {
                if self.i as usize + 2 >= 4096 {
                    proof {
                        assert(step_matches(pre, 0u8,
                            Err::<StepOutcome, StepError>(StepError::MemoryOutOfBounds), self@));
                    }
                    return Err(StepError::MemoryOutOfBounds);
                }
                let b: usize = self.i as usize;
                self.mem.set(b, vx / 100);
                self.mem.set(b + 1, (vx % 100) / 10);
                self.mem.set(b + 2, vx % 10);
                self.pc = self.pc + 2;
                proof {
                    assert(step_matches(pre, 0u8,
                        Ok::<StepOutcome, StepError>(StepOutcome::Executed), self@));
                }
                Ok(StepOutcome::Executed)
            } else if low8 == 0x55 {
                if self.i as usize + x >= 4096 {
                    proof {
                        assert(step_matches(pre, 0u8,
                            Err::<StepOutcome, StepError>(StepError::MemoryOutOfBounds), self@));
                    }
                    return Err(StepError::MemoryOutOfBounds);
                }
                self.store_regs(x);
                self.pc = self.pc + 2;
                proof {
                    assert(step_matches(pre, 0u8,
                        Ok::<StepOutcome, StepError>(StepOutcome::Executed), self@));
                }
                Ok(StepOutcome::Executed)
            } else if low8 == 0x65 {
                if self.i as usize + x >= 4096 {
                    proof {
                        assert(step_matches(pre, 0u8,
                            Err::<StepOutcome, StepError>(StepError::MemoryOutOfBounds), self@));
                    }
                    return Err(StepError::MemoryOutOfBounds);
                }
                self.load_regs(x);
                self.pc = self.pc + 2;
                proof {
                    assert(step_matches(pre, 0u8,
                        Ok::<StepOutcome, StepError>(StepOutcome::Executed), self@));
                }
                Ok(StepOutcome::Executed)
            } else {
                self.pc = self.pc + 2;
                proof {
                    assert(step_matches(pre, 0u8,
                        Ok::<StepOutcome, StepError>(StepOutcome::UnknownOpcode(op)), self@));
                }
                Ok(StepOutcome::UnknownOpcode(op))
            }
        }
    }

    /// One host-driven tick, the step interface of the machine. While
    /// a key wait is pending, nothing moves: if `pressed` reports
    /// newly pressed keys, the first one resolves the wait; otherwise
    /// the machine stays exactly as it is. With no wait pending, the
    /// timers count down once and one instruction runs.
    pub fn frame(&mut self, pressed: &Vec<u8>) -> (res: Result<StepOutcome, StepError>)
        requires
            old(self).wf(),
            forall|j: int| 0 <= j < pressed@.len() ==> pressed@[j] < 16,
        ensures
            final(self).wf(),
            (exists|r: u8| #[trigger] frame_matches(old(self)@, pressed@, r, res, final(self)@)),
    {
        let ghost pre = self@;
        if self.waiting_for_key {
            if pressed.len() > 0 {
                let key: u8 = pressed[0];
                self.reg.set(self.insert_key_at as usize, key);
                self.waiting_for_key = false;
                proof {
                    assert(frame_matches(pre, pressed@, 0u8,
                        Ok::<StepOutcome, StepError>(StepOutcome::KeyInserted(key)), self@));
                }
                Ok(StepOutcome::KeyInserted(key))
            } else {
                proof {
                    assert(frame_matches(pre, pressed@, 0u8,
                        Ok::<StepOutcome, StepError>(StepOutcome::Waiting), self@));
                }
                Ok(StepOutcome::Waiting)
            }
        } else {
            if self.delay > 0 {
                self.delay = self.delay - 1;
            }
            if self.sound > 0 {
                self.sound = self.sound - 1;
            }
            proof {
                assert(self@ == tick_timers(pre));
            }
            let res = self.tick();
            proof {
                let r = choose|r: u8| step_matches(tick_timers(pre), r, res, self@);
                assert(frame_matches(pre, pressed@, r, res, self@));
            }
            res
        }
    }
}

} // verus!
