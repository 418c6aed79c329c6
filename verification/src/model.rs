//! Mathematical model of the CHIP-8 machine and of one execution step.
//!
//! `MachineView` is the abstract state: plain sequences and integers.
//! `step_spec` says exactly what one instruction does to that state, and
//! `frame_spec` says what one host-driven tick does (key-wait handling,
//! timer decrement, then one instruction). The executable machine in
//! `system` is proved to follow these functions.

use vstd::prelude::*;

verus! {

/// Abstract machine state. Lengths are fixed: 4096 memory bytes,
/// 16 registers, a 16-entry call stack, a 64x32 display stored
/// row-major as 2048 booleans, and 16 key latches.
pub struct MachineView {
    pub mem: Seq<u8>,
    pub reg: Seq<u8>,
    pub i: u16,
    pub pc: u16,
    pub sp: int,
    pub stack: Seq<u16>,
    pub delay: u8,
    pub sound: u8,
    pub display: Seq<bool>,
    pub buttons: Seq<bool>,
    pub waiting_for_key: bool,
    pub insert_key_at: u8,
}

/// Outcome of a successful step.
#[derive(Clone, Copy, PartialEq, Eq, Debug)]
pub enum StepOutcome {
    /// A recognized instruction was executed.
    Executed,
    /// The fetched word was not a recognized instruction; it was skipped
    /// and execution continues at the next address.
    UnknownOpcode(u16),
    /// The machine is suspended waiting for a key and none was pressed.
    Waiting,
    /// A pending key wait was resolved with this key index.
    KeyInserted(u8),
}

/// Conditions under which a step refuses to run and leaves the
/// machine unchanged, rather than corrupting state.
#[derive(Clone, Copy, PartialEq, Eq, Debug)]
pub enum StepError {
    /// The program counter does not point at two readable memory bytes.
    PcOutOfBounds,
    /// A call was made with all 16 stack slots already in use.
    StackOverflow,
    /// A return was made with an empty call stack.
    StackUnderflow,
    /// A memory-writing or memory-reading instruction would touch an
    /// address past the 4096-byte space.
    MemoryOutOfBounds,
    /// A key-test instruction named a key index above 15.
    KeyOutOfRange,
}

impl MachineView {
    /// Well-formedness: the fixed sizes hold, the stack pointer is in
    /// range, every stored return address is a valid fetch address, and
    /// the pending key-wait target names a register.
    pub open spec fn wf(self) -> bool {
        &&& self.mem.len() == 4096
        &&& self.reg.len() == 16
        &&& self.stack.len() == 16
        &&& 0 <= self.sp <= 16
        &&& self.display.len() == 2048
        &&& self.buttons.len() == 16
        &&& (forall|k: int| 0 <= k < 16 ==> self.stack[k] <= 0xFFE)
        &&& self.insert_key_at < 16
    }
}

/// The built-in font: 16 glyphs of 5 bytes each, for digits 0 through F.
pub open spec fn font() -> Seq<u8> {
    seq![
        0xF0u8, 0x90, 0x90, 0x90, 0xF0,
        0x20, 0x60, 0x20, 0x20, 0x70,
        0xF0, 0x10, 0xF0, 0x80, 0xF0,
        0xF0, 0x10, 0xF0, 0x10, 0xF0,
        0x90, 0x90, 0xF0, 0x10, 0x10,
        0xF0, 0x80, 0xF0, 0x10, 0xF0,
        0xF0, 0x80, 0xF0, 0x90, 0xF0,
        0xF0, 0x10, 0x20, 0x40, 0x40,
        0xF0, 0x90, 0xF0, 0x90, 0xF0,
        0xF0, 0x90, 0xF0, 0x10, 0xF0,
        0xF0, 0x90, 0xF0, 0x90, 0x90,
        0xE0, 0x90, 0xE0, 0x90, 0xE0,
        0xF0, 0x80, 0x80, 0x80, 0xF0,
        0xE0, 0x90, 0x90, 0x90, 0xE0,
        0xF0, 0x80, 0xF0, 0x80, 0xF0,
        0xF0, 0x80, 0xF0, 0x80, 0x80,
    ]
}

/// The memory image right after construction: font at the bottom,
/// the program at 0x200, zero elsewhere. A program longer than
/// 3584 bytes is truncated: only bytes that fit below 4096 are kept.
pub open spec fn initial_mem(prog: Seq<u8>) -> Seq<u8> {
    Seq::new(4096, |idx: int|
        if idx < 80 {
            font()[idx]
        } else if 0x200 <= idx && idx - 0x200 < prog.len() {
            prog[idx - 0x200]
        } else {
            0u8
        })
}

/// The machine state right after construction from a program image.
pub open spec fn initial_view(prog: Seq<u8>) -> MachineView {
    MachineView {
        mem: initial_mem(prog),
        reg: Seq::new(16, |k: int| 0u8),
        i: 0,
        pc: 0x200,
        sp: 0,
        stack: Seq::new(16, |k: int| 0u16),
        delay: 0,
        sound: 0,
        display: Seq::new(2048, |k: int| false),
        buttons: Seq::new(16, |k: int| false),
        waiting_for_key: false,
        insert_key_at: 0,
    }
}

/// Both bytes of the instruction word lie inside memory.
pub open spec fn fetch_ok(s: MachineView) -> bool {
    s.pc + 1 < 4096
}

/// The big-endian 16-bit instruction word at the program counter.
pub open spec fn opcode_at(s: MachineView) -> u16 {
    (s.mem[s.pc as int] * 256 + s.mem[s.pc as int + 1]) as u16
}

/// Top nibble: selects the opcode family.
pub open spec fn op_hi(op: u16) -> int {
    op as int / 0x1000
}

/// Register index X, bits 8..12.
pub open spec fn op_x(op: u16) -> int {
    (op as int / 0x100) % 16
}

/// Register index Y, bits 4..8.
pub open spec fn op_y(op: u16) -> int {
    (op as int / 16) % 16
}

/// 12-bit address field.
pub open spec fn op_nnn(op: u16) -> u16 {
    (op as int % 0x1000) as u16
}

/// 8-bit immediate field.
pub open spec fn op_kk(op: u16) -> u8 {
    (op as int % 0x100) as u8
}

/// 4-bit field: the sprite height of a draw instruction.
pub open spec fn op_n(op: u16) -> int {
    op as int % 16
}

/// The state with the program counter moved past one instruction.
pub open spec fn advanced(s: MachineView) -> MachineView {
    MachineView { pc: (s.pc + 2) as u16, ..s }
}

/// Conditional-skip step: the next instruction is skipped exactly
/// when the condition holds, so the counter moves by 4 instead of 2.
pub open spec fn skip_if(s: MachineView, cond: bool) -> MachineView {
    if cond {
        advanced(advanced(s))
    } else {
        advanced(s)
    }
}

/// 2^(7-c): the place value of sprite column c, most significant first.
pub open spec fn col_weight(c: int) -> int {
    if c == 0 { 128 }
    else if c == 1 { 64 }
    else if c == 2 { 32 }
    else if c == 3 { 16 }
    else if c == 4 { 8 }
    else if c == 5 { 4 }
    else if c == 6 { 2 }
    else { 1 }
}

/// Bit c of a sprite row byte, counting the most significant bit as
/// column 0.
pub open spec fn sprite_bit(byte: u8, c: int) -> bool {
    (byte as int / col_weight(c)) % 2 == 1
}

/// Row-major index of a display pixel.
pub open spec fn pix(row: int, col: int) -> int {
    row * 64 + col
}

/// Which sprite row, if any, lands on display row `row` when drawing
/// at vertical origin `vy`: the unique r with (vy + r) % 32 == row.
pub open spec fn row_offset(vy: u8, row: int) -> int {
    (row + 32 - (vy % 32)) % 32
}

/// Which sprite column, if any, lands on display column `col` when
/// drawing at horizontal origin `vx`.
pub open spec fn col_offset(vx: u8, col: int) -> int {
    (col + 64 - (vx % 64)) % 64
}

/// A display row holds the image of sprite row r exactly when it is
/// the wrapped sum of the vertical origin and r.
pub proof fn lemma_row_wrap(vy: u8, row: int, r: int)
    requires
        0 <= row < 32,
        0 <= r < 32,
    ensures
        (row_offset(vy, row) == r) <==> (row == (vy + r) % 32),
{
    let v: u16 = vy as u16;
    let rw: u16 = row as u16;
    let rr: u16 = r as u16;
    assert(((rw + 32 - (v % 32)) % 32 == rr) <==> (rw == (v + rr) % 32)) by (bit_vector)
        requires
            v < 256,
            rw < 32,
            rr < 32,
    ;
    assert(v % 32 == vy % 32);
}

/// A display column holds the image of sprite column c exactly when
/// it is the wrapped sum of the horizontal origin and c.
pub proof fn lemma_col_wrap(vx: u8, col: int, c: int)
    requires
        0 <= col < 64,
        0 <= c < 64,
    ensures
        (col_offset(vx, col) == c) <==> (col == (vx + c) % 64),
{
    let v: u16 = vx as u16;
    let cw: u16 = col as u16;
    let cc: u16 = c as u16;
    assert(((cw + 64 - (v % 64)) % 64 == cc) <==> (cw == (v + cc) % 64)) by (bit_vector)
        requires
            v < 256,
            cw < 64,
            cc < 64,
    ;
    assert(v % 64 == vx % 64);
}

/// The display after drawing the n-row sprite held at memory address
/// `i`, with origin (vx, vy), both coordinates wrapping. Each touched
/// pixel is XOR-ed with its sprite bit; every other pixel is kept.
pub open spec fn draw_display(s: MachineView, vx: u8, vy: u8, n: int) -> Seq<bool> {
    Seq::new(2048, |idx: int| {
        let r = row_offset(vy, idx / 64);
        let c = col_offset(vx, idx % 64);
        if r < n && c < 8 {
            s.display[idx] != sprite_bit(s.mem[s.i + r], c)
        } else {
            s.display[idx]
        }
    })
}

/// Sprite cell (r, c) is a 1 bit that lands on an already-lit pixel.
pub open spec fn collides_at(s: MachineView, vx: u8, vy: u8, r: int, c: int) -> bool {
    sprite_bit(s.mem[s.i + r], c) && s.display[pix((vy + r) % 32, (vx + c) % 64)]
}

/// Whether the draw collides: some 1 bit of the sprite lands on a
/// pixel that is already lit.
pub open spec fn draw_collision(s: MachineView, vx: u8, vy: u8, n: int) -> bool {
    exists|r: int, c: int|
        0 <= r < n && 0 <= c < 8 && #[trigger] collides_at(s, vx, vy, r, c)
}

/// Sprite cell (rr, cc) comes strictly before cell (r, c) when the
/// sprite is walked row by row, most significant bit first.
pub open spec fn pair_done(r: int, c: int, rr: int, cc: int) -> bool {
    rr < r || (rr == r && cc < c)
}

/// The display in the middle of a draw: the cells before (r, c) have
/// been applied, the rest have not.
pub open spec fn draw_display_partial(
    s: MachineView, vx: u8, vy: u8, n: int, r: int, c: int,
) -> Seq<bool> {
    Seq::new(2048, |idx: int| {
        let rr = row_offset(vy, idx / 64);
        let cc = col_offset(vx, idx % 64);
        if rr < n && cc < 8 && pair_done(r, c, rr, cc) {
            s.display[idx] != sprite_bit(s.mem[s.i + rr], cc)
        } else {
            s.display[idx]
        }
    })
}

/// Whether some cell before (r, c) already collided.
pub open spec fn draw_collision_partial(
    s: MachineView, vx: u8, vy: u8, r: int, c: int,
) -> bool {
    exists|rr: int, cc: int|
        0 <= rr && 0 <= cc < 8 && pair_done(r, c, rr, cc)
        && #[trigger] collides_at(s, vx, vy, rr, cc)
}

/// The register-register family (top nibble 8), selected by the low
/// nibble. Returns the updated state before the common advance, or
/// None for an unrecognized low nibble. Where the flags register is
/// written, the order of the two writes matches the machine: a later
/// write to register 15 wins when X is 15 itself.
pub open spec fn alu(s: MachineView, op: u16) -> Option<MachineView> {
    let x = op_x(op);
    let vx = s.reg[x];
    let vy = s.reg[op_y(op)];
    let low = op_n(op);
    if low == 0 {
        Some(MachineView { reg: s.reg.update(x, vy), ..s })
    } else if low == 1 {
        Some(MachineView { reg: s.reg.update(x, vx | vy), ..s })
    } else if low == 2 {
        Some(MachineView { reg: s.reg.update(x, vx & vy), ..s })
    } else if low == 3 {
        Some(MachineView { reg: s.reg.update(x, vx ^ vy), ..s })
    } else if low == 4 {
        let sum = vx + vy;
        let flag: u8 = if sum >= 256 { 1 } else { 0 };
        Some(MachineView { reg: s.reg.update(x, (sum % 256) as u8).update(15, flag), ..s })
    } else if low == 5 {
        let diff: u8 = if vx >= vy { (vx - vy) as u8 } else { (vx + 256 - vy) as u8 };
        let flag: u8 = if vx >= vy { 1 } else { 0 };
        Some(MachineView { reg: s.reg.update(x, diff).update(15, flag), ..s })
    } else if low == 6 {
        Some(MachineView { reg: s.reg.update(15, vx % 2).update(x, vx / 2), ..s })
    } else if low == 7 {
        let diff: u8 = if vy >= vx { (vy - vx) as u8 } else { (vy + 256 - vx) as u8 };
        let flag: u8 = if vy >= vx { 1 } else { 0 };
        Some(MachineView { reg: s.reg.update(x, diff).update(15, flag), ..s })
    } else if low == 0xE {
        Some(MachineView { reg: s.reg.update(15, vx / 128).update(x, (vx * 2 % 256) as u8), ..s })
    } else {
        None
    }
}

/// One instruction: fetch at the program counter, decode, execute.
/// `r` stands for the byte the random-number generator hands the
/// random instruction; every other instruction ignores it. Errors
/// leave the state exactly as it was.
pub open spec fn step_spec(s: MachineView, r: u8) -> Result<(MachineView, StepOutcome), StepError> {
    if !fetch_ok(s) {
        Err(StepError::PcOutOfBounds)
    } else {
        let op = opcode_at(s);
        let hi = op_hi(op);
        let x = op_x(op);
        let vx = s.reg[x];
        let vy = s.reg[op_y(op)];
        let nnn = op_nnn(op);
        let kk = op_kk(op);
        let n = op_n(op);
        if hi == 0 {
            if op % 256 == 0xE0 {
                Ok((advanced(MachineView { display: Seq::new(2048, |k: int| false), ..s }),
                    StepOutcome::Executed))
            } else if op % 256 == 0xEE {
                if s.sp == 0 {
                    Err(StepError::StackUnderflow)
                } else {
                    Ok((MachineView {
                        sp: s.sp - 1,
                        pc: (s.stack[s.sp - 1] + 2) as u16,
                        ..s
                    }, StepOutcome::Executed))
                }
            } else {
                Ok((advanced(s), StepOutcome::UnknownOpcode(op)))
            }
        } else if hi == 1 {
            Ok((MachineView { pc: nnn, ..s }, StepOutcome::Executed))
        } else if hi == 2 {
            if s.sp == 16 {
                Err(StepError::StackOverflow)
            } else {
                Ok((MachineView {
                    stack: s.stack.update(s.sp, s.pc),
                    sp: s.sp + 1,
                    pc: nnn,
                    ..s
                }, StepOutcome::Executed))
            }
        } else if hi == 3 {
            Ok((skip_if(s, vx == kk), StepOutcome::Executed))
        } else if hi == 4 {
            Ok((skip_if(s, vx != kk), StepOutcome::Executed))
        } else if hi == 5 {
            Ok((skip_if(s, vx == vy), StepOutcome::Executed))
        } else if hi == 6 {
            Ok((advanced(MachineView { reg: s.reg.update(x, kk), ..s }), StepOutcome::Executed))
        } else if hi == 7 {
            Ok((advanced(MachineView { reg: s.reg.update(x, ((vx + kk) % 256) as u8), ..s }),
                StepOutcome::Executed))
        } else if hi == 8 {
            match alu(s, op) {
                Some(s2) => Ok((advanced(s2), StepOutcome::Executed)),
                None => Ok((advanced(s), StepOutcome::UnknownOpcode(op))),
            }
        } else if hi == 9 {
            Ok((skip_if(s, vx != vy), StepOutcome::Executed))
        } else if hi == 0xA {
            Ok((advanced(MachineView { i: nnn, ..s }), StepOutcome::Executed))
        } else if hi == 0xB {
            Ok((MachineView { pc: (nnn + s.reg[0]) as u16, ..s }, StepOutcome::Executed))
        } else if hi == 0xC {
            Ok((advanced(MachineView { reg: s.reg.update(x, r & kk), ..s }), StepOutcome::Executed))
        } else if hi == 0xD {
            if n > 0 && s.i + n > 4096 {
                Err(StepError::MemoryOutOfBounds)
            } else {
                let flag: u8 = if draw_collision(s, vx, vy, n) { 1 } else { 0 };
                Ok((advanced(MachineView {
                    display: draw_display(s, vx, vy, n),
                    reg: s.reg.update(15, flag),
                    ..s
                }), StepOutcome::Executed))
            }
        } else if hi == 0xE {
            if op % 256 == 0x9E {
                if vx >= 16 {
                    Err(StepError::KeyOutOfRange)
                } else {
                    Ok((skip_if(s, s.buttons[vx as int]), StepOutcome::Executed))
                }
            } else if op % 256 == 0xA1 {
                if vx >= 16 {
                    Err(StepError::KeyOutOfRange)
                } else {
                    Ok((skip_if(s, !s.buttons[vx as int]), StepOutcome::Executed))
                }
            } else {
                Ok((advanced(s), StepOutcome::UnknownOpcode(op)))
            }
        } else {
            let low = op % 256;
            if low == 0x07 {
                Ok((advanced(MachineView { reg: s.reg.update(x, s.delay), ..s }),
                    StepOutcome::Executed))
            } else if low == 0x0A {
                Ok((advanced(MachineView {
                    waiting_for_key: true,
                    insert_key_at: x as u8,
                    ..s
                }), StepOutcome::Executed))
            } else if low == 0x15 {
                Ok((advanced(MachineView { delay: vx, ..s }), StepOutcome::Executed))
            } else if low == 0x18 {
                Ok((advanced(MachineView { sound: vx, ..s }), StepOutcome::Executed))
            } else if low == 0x1E {
                let sum = s.i + vx;
                let flag: u8 = if sum >= 0x10000 { 1 } else { 0 };
                Ok((advanced(MachineView {
                    i: (sum % 0x10000) as u16,
                    reg: s.reg.update(15, flag),
                    ..s
                }), StepOutcome::Executed))
            } else if low == 0x29 {
                Ok((advanced(MachineView { i: (vx * 5) as u16, ..s }), StepOutcome::Executed))
            } else if low == 0x33 {
                if s.i + 2 >= 4096 {
                    Err(StepError::MemoryOutOfBounds)
                } else {
                    Ok((advanced(MachineView {
                        mem: s.mem.update(s.i as int, vx / 100)
                            .update(s.i + 1, (vx % 100) / 10)
                            .update(s.i + 2, vx % 10),
                        ..s
                    }), StepOutcome::Executed))
                }
            } else if low == 0x55 {
                if s.i + x >= 4096 {
                    Err(StepError::MemoryOutOfBounds)
                } else {
                    Ok((advanced(MachineView {
                        mem: Seq::new(4096, |idx: int|
                            if s.i <= idx <= s.i + x { s.reg[idx - s.i] } else { s.mem[idx] }),
                        ..s
                    }), StepOutcome::Executed))
                }
            } else if low == 0x65 {
                if s.i + x >= 4096 {
                    Err(StepError::MemoryOutOfBounds)
                } else {
                    Ok((advanced(MachineView {
                        reg: Seq::new(16, |k: int|
                            if k <= x { s.mem[s.i + k] } else { s.reg[k] }),
                        ..s
                    }), StepOutcome::Executed))
                }
            } else {
                Ok((advanced(s), StepOutcome::UnknownOpcode(op)))
            }
        }
    }
}

/// Each timer counts down by one per tick while nonzero; neither
/// wraps below zero.
pub open spec fn tick_timers(s: MachineView) -> MachineView {
    MachineView {
        delay: if s.delay > 0 { (s.delay - 1) as u8 } else { 0 },
        sound: if s.sound > 0 { (s.sound - 1) as u8 } else { 0 },
        ..s
    }
}

/// Resolving a pending key wait: the key index is written into the
/// register the wait named, and the machine resumes. Nothing else
/// moves on the resolving tick.
pub open spec fn resolve_key(s: MachineView, key: u8) -> MachineView {
    MachineView {
        reg: s.reg.update(s.insert_key_at as int, key),
        waiting_for_key: false,
        ..s
    }
}

/// One host-driven tick. While the machine waits for a key, nothing
/// happens except, when some key was newly pressed, the resolution of
/// the wait: timers hold and the program counter does not move, on
/// waiting ticks and on the resolving tick alike. Otherwise the
/// timers count down once and one instruction runs.
pub open spec fn frame_spec(s: MachineView, pressed: Seq<u8>, r: u8)
    -> Result<(MachineView, StepOutcome), StepError> {
    if s.waiting_for_key {
        if pressed.len() > 0 {
            Ok((resolve_key(s, pressed[0]), StepOutcome::KeyInserted(pressed[0])))
        } else {
            Ok((s, StepOutcome::Waiting))
        }
    } else {
        step_spec(tick_timers(s), r)
    }
}

/// How one call of the executable step relates to the model: on
/// success the new state and outcome are what `step_spec` gives for
/// the random byte `r`; on an error the state did not move.
pub open spec fn step_matches(
    s: MachineView,
    r: u8,
    res: Result<StepOutcome, StepError>,
    post: MachineView,
) -> bool {
    match res {
        Ok(out) => step_spec(s, r) == Ok::<(MachineView, StepOutcome), StepError>((post, out)),
        Err(e) => step_spec(s, r) == Err::<(MachineView, StepOutcome), StepError>(e) && post == s,
    }
}

/// How one call of the executable tick relates to the model: as
/// `step_matches`, but through `frame_spec`; an error still leaves
/// the timers counted down, since they move before the instruction.
pub open spec fn frame_matches(
    s: MachineView,
    pressed: Seq<u8>,
    r: u8,
    res: Result<StepOutcome, StepError>,
    post: MachineView,
) -> bool {
    match res {
        Ok(out) => frame_spec(s, pressed, r)
            == Ok::<(MachineView, StepOutcome), StepError>((post, out)),
        Err(e) => frame_spec(s, pressed, r)
            == Err::<(MachineView, StepOutcome), StepError>(e) && post == tick_timers(s),
    }
}

} // verus!
