//! Laws of the instruction semantics, proved once and for all over
//! the model in `crate::model`.

use vstd::prelude::*;
use crate::model::{
    MachineView, StepOutcome, StepError,
    initial_view, fetch_ok, opcode_at, op_hi, op_x, op_y, op_kk, op_n,
    pix, sprite_bit, row_offset, col_offset, lemma_row_wrap, lemma_col_wrap,
    draw_display, step_spec, resolve_key, frame_spec,
};

verus! {

/// The machine a successful step leaves behind.
pub open spec fn after_step(s: MachineView, r: u8) -> MachineView {
    step_spec(s, r)->Ok_0.0
}

/// How the decoded fields of an instruction word fall out of its two
/// bytes.
pub proof fn lemma_decode(a: u8, b: u8)
    ensures
        ({
            let op = (a * 256 + b) as u16;
            &&& op_hi(op) == a as int / 16
            &&& op_x(op) == a as int % 16
            &&& op_y(op) == b as int / 16
            &&& op_n(op) == b as int % 16
            &&& op_kk(op) == b
            &&& op as int % 256 == b
        }),
{
    let op: u16 = (a * 256 + b) as u16;
    assert(op == a * 256 + b);
    assert(op as int / 0x1000 == a as int / 16
        && (op as int / 0x100) % 16 == a as int % 16
        && (op as int / 16) % 16 == b as int / 16
        && op as int % 16 == b as int % 16
        && op as int % 0x100 == b as int
        && op as int % 256 == b as int) by (bit_vector)
        requires
            op == a * 256 + b,
    ;
}

/// Loading an immediate and then adding 1 to the same register:
/// for every register X and every byte KK, running `6XKK` and then
/// `7X01` leaves register X holding (KK + 1) mod 256, and, when X is
/// not the flags register itself, leaves the flags register exactly
/// as it was: the wrapping add sets no flag.
pub proof fn lemma_load_then_add_one(s: MachineView, x: u8, kk: u8, r1: u8, r2: u8)
    requires
        s.wf(),
        x < 16,
        s.pc + 3 < 4096,
        s.mem[s.pc as int] == 0x60 + x,
        s.mem[s.pc as int + 1] == kk,
        s.mem[s.pc as int + 2] == 0x70 + x,
        s.mem[s.pc as int + 3] == 1,
    ensures
        step_spec(s, r1) is Ok,
        step_spec(after_step(s, r1), r2) is Ok,
        after_step(after_step(s, r1), r2).reg[x as int] == (kk + 1) % 256,
        x != 15 ==> after_step(after_step(s, r1), r2).reg[15] == s.reg[15],
{
    let a1 = s.mem[s.pc as int];
    lemma_decode(a1, kk);
    assert(a1 as int / 16 == 6 && a1 as int % 16 == x) by (bit_vector)
        requires
            a1 == 0x60 + x,
            x < 16,
    ;
    let op1 = opcode_at(s);
    assert(op1 == a1 * 256 + kk);
    let s1 = after_step(s, r1);
    assert(s1.reg == s.reg.update(x as int, kk));
    assert(s1.pc == s.pc + 2);
    let a2 = s.mem[s.pc as int + 2];
    lemma_decode(a2, 1);
    assert(a2 as int / 16 == 7 && a2 as int % 16 == x) by (bit_vector)
        requires
            a2 == 0x70 + x,
            x < 16,
    ;
    let op2 = opcode_at(s1);
    assert(op2 == a2 * 256 + 1);
    assert(s1.reg[x as int] == kk);
    let s2 = after_step(s1, r2);
    assert(s2.reg == s1.reg.update(x as int, ((kk + 1) % 256) as u8));
}

/// The conditional skip after a matching load: for every register X
/// and byte KK, running `6XKK` and then `3XKK` skips the following
/// instruction, so the counter ends 4 past the skip instruction and
/// 6 past the load.
pub proof fn lemma_load_then_skip_taken(s: MachineView, x: u8, kk: u8, r1: u8, r2: u8)
    requires
        s.wf(),
        x < 16,
        s.pc + 3 < 4096,
        s.mem[s.pc as int] == 0x60 + x,
        s.mem[s.pc as int + 1] == kk,
        s.mem[s.pc as int + 2] == 0x30 + x,
        s.mem[s.pc as int + 3] == kk,
    ensures
        step_spec(s, r1) is Ok,
        step_spec(after_step(s, r1), r2) is Ok,
        after_step(after_step(s, r1), r2).pc == s.pc + 6,
{
    let a1 = s.mem[s.pc as int];
    lemma_decode(a1, kk);
    assert(a1 as int / 16 == 6 && a1 as int % 16 == x) by (bit_vector)
        requires
            a1 == 0x60 + x,
            x < 16,
    ;
    let op1 = opcode_at(s);
    assert(op1 == a1 * 256 + kk);
    let s1 = after_step(s, r1);
    assert(s1.reg == s.reg.update(x as int, kk));
    assert(s1.pc == s.pc + 2);
    let a2 = s.mem[s.pc as int + 2];
    lemma_decode(a2, kk);
    assert(a2 as int / 16 == 3 && a2 as int % 16 == x) by (bit_vector)
        requires
            a2 == 0x30 + x,
            x < 16,
    ;
    let op2 = opcode_at(s1);
    assert(op2 == a2 * 256 + kk);
    assert(s1.reg[x as int] == kk);
}

/// Whichever pixel a sprite cell lands on after a draw: cell (rr, cc)
/// of the sprite lands on display row (vy + rr) mod 32 and column
/// (vx + cc) mod 64, and that pixel ends as its old value XOR-ed with
/// the sprite bit.
pub open spec fn sprite_cell_drawn(s: MachineView, post: MachineView, rr: int, cc: int) -> bool {
    let vx = s.reg[op_x(opcode_at(s))];
    let vy = s.reg[op_y(opcode_at(s))];
    post.display[pix((vy + rr) % 32, (vx + cc) % 64)]
        == (s.display[pix((vy + rr) % 32, (vx + cc) % 64)] != sprite_bit(s.mem[s.i + rr], cc))
}

/// Wraparound of the draw instruction: for every origin, that is for
/// all register contents Vx and Vy in 0..=255, a draw stays inside
/// the 64x32 display; each sprite cell lands on the wrapped row and
/// column, columns past 63 coming back in at 0 and rows past 31 at 0.
pub proof fn lemma_draw_wraparound(s: MachineView, r: u8)
    requires
        s.wf(),
        fetch_ok(s),
        op_hi(opcode_at(s)) == 0xD,
        op_n(opcode_at(s)) > 0 ==> s.i + op_n(opcode_at(s)) <= 4096,
    ensures
        step_spec(s, r) is Ok,
        after_step(s, r).display.len() == 2048,
        forall|rr: int, cc: int| 0 <= rr < op_n(opcode_at(s)) && 0 <= cc < 8
            ==> #[trigger] sprite_cell_drawn(s, after_step(s, r), rr, cc),
{
    let op = opcode_at(s);
    let vx = s.reg[op_x(op)];
    let vy = s.reg[op_y(op)];
    let n = op_n(op);
    let post = after_step(s, r);
    assert(post.display == draw_display(s, vx, vy, n));
    assert forall|rr: int, cc: int| 0 <= rr < n && 0 <= cc < 8
        implies #[trigger] sprite_cell_drawn(s, post, rr, cc) by {
        let row = (vy + rr) % 32;
        let col = (vx + cc) % 64;
        let idx = pix(row, col);
        assert(0 <= row < 32);
        assert(0 <= col < 64);
        assert(0 <= idx < 2048);
        assert(idx / 64 == row);
        assert(idx % 64 == col);
        lemma_row_wrap(vy, row, rr);
        lemma_col_wrap(vx, col, cc);
        assert(row_offset(vy, idx / 64) == rr);
        assert(col_offset(vx, idx % 64) == cc);
        assert(post.display[idx] == (s.display[idx] != sprite_bit(s.mem[s.i + rr], cc)));
    }
}

/// While the machine waits for a key and none is pressed, a tick
/// changes nothing at all: the program counter holds, both timers
/// hold, and the machine keeps waiting.
pub proof fn lemma_key_wait_holds(s: MachineView, r: u8)
    requires
        s.waiting_for_key,
    ensures
        frame_spec(s, Seq::empty(), r)
            == Ok::<(MachineView, StepOutcome), StepError>((s, StepOutcome::Waiting)),
{
}

/// The tick on which a pressed key is seen resolves the wait: the
/// key index lands in the register the wait named, the wait ends,
/// and nothing else moves on that tick; stepping resumes on the next.
pub proof fn lemma_key_wait_resolves(s: MachineView, pressed: Seq<u8>, r: u8)
    requires
        s.wf(),
        s.waiting_for_key,
        pressed.len() > 0,
    ensures
        frame_spec(s, pressed, r) is Ok,
        (frame_spec(s, pressed, r)->Ok_0).1 == StepOutcome::KeyInserted(pressed[0]),
        ({
            let post = (frame_spec(s, pressed, r)->Ok_0).0;
            &&& post.reg[s.insert_key_at as int] == pressed[0]
            &&& !post.waiting_for_key
            &&& post.pc == s.pc
            &&& post.delay == s.delay
            &&& post.sound == s.sound
            &&& post.display == s.display
            &&& post.mem == s.mem
        }),
{
    assert(frame_spec(s, pressed, r)
        == Ok::<(MachineView, StepOutcome), StepError>((resolve_key(s, pressed[0]),
            StepOutcome::KeyInserted(pressed[0]))));
}

/// Executing the key-wait instruction suspends the machine: it marks
/// the wait, remembers the target register, moves the counter past
/// the instruction, and touches nothing else; the register write is
/// deferred to the resolving tick.
pub proof fn lemma_key_wait_entered(s: MachineView, r: u8)
    requires
        s.wf(),
        fetch_ok(s),
        op_hi(opcode_at(s)) == 0xF,
        opcode_at(s) % 256 == 0x0A,
    ensures
        step_spec(s, r) is Ok,
        after_step(s, r).waiting_for_key,
        after_step(s, r).insert_key_at == op_x(opcode_at(s)),
        after_step(s, r).pc == s.pc + 2,
        after_step(s, r).reg == s.reg,
        after_step(s, r).delay == s.delay,
        after_step(s, r).sound == s.sound,
{
}

/// One step of a run: the machine after the first random byte, then
/// the rest.
pub open spec fn run_steps(s: MachineView, rs: Seq<u8>) -> Result<MachineView, StepError>
    decreases rs.len(),
{
    if rs.len() == 0 {
        Ok(s)
    } else {
        match step_spec(s, rs[0]) {
            Ok(p) => run_steps(p.0, rs.subrange(1, rs.len() as int)),
            Err(e) => Err(e),
        }
    }
}

/// The instruction at the counter neither redirects control flow nor
/// suspends nor fails: it is not a jump, call, return or key wait,
/// no taken skip, and no out-of-range access. Such an instruction
/// moves the counter by exactly 2.
pub open spec fn sequential_instruction(s: MachineView) -> bool {
    &&& fetch_ok(s)
    &&& ({
        let op = opcode_at(s);
        let hi = op_hi(op);
        let vx = s.reg[op_x(op)];
        let vy = s.reg[op_y(op)];
        let kk = op_kk(op);
        &&& hi != 1
        &&& hi != 2
        &&& hi != 0xB
        &&& !(hi == 0 && op % 256 == 0xEE)
        &&& (hi == 3 ==> vx != kk)
        &&& (hi == 4 ==> vx == kk)
        &&& (hi == 5 ==> vx != vy)
        &&& (hi == 9 ==> vx == vy)
        &&& (hi == 0xD ==> (op_n(op) == 0 || s.i + op_n(op) <= 4096))
        &&& (hi == 0xE ==> ({
            &&& (op % 256 == 0x9E ==> vx < 16 && !s.buttons[vx as int])
            &&& (op % 256 == 0xA1 ==> vx < 16 && s.buttons[vx as int])
        }))
        &&& (hi == 0xF ==> ({
            &&& op % 256 != 0x0A
            &&& (op % 256 == 0x33 ==> s.i + 2 < 4096)
            &&& (op % 256 == 0x55 ==> s.i + op_x(op) < 4096)
            &&& (op % 256 == 0x65 ==> s.i + op_x(op) < 4096)
        }))
    })
}

/// A sequential instruction always succeeds and moves the program
/// counter forward by exactly one instruction.
pub proof fn lemma_sequential_step(s: MachineView, r: u8)
    requires
        sequential_instruction(s),
    ensures
        step_spec(s, r) is Ok,
        after_step(s, r).pc == s.pc + 2,
{
}

/// A straight-line run: starting anywhere, running any number of
/// steps each of which executes a sequential instruction, the
/// program counter ends exactly 2 bytes per step past where it
/// began.
pub proof fn lemma_straight_line_run(s: MachineView, rs: Seq<u8>)
    requires
        forall|k: int| 0 <= k < rs.len() ==> (#[trigger] run_steps(s, rs.subrange(0, k))) is Ok
            && sequential_instruction(run_steps(s, rs.subrange(0, k))->Ok_0),
    ensures
        run_steps(s, rs) is Ok,
        run_steps(s, rs)->Ok_0.pc == s.pc + 2 * rs.len(),
    decreases rs.len(),
{
    if rs.len() == 0 {
    } else {
        assert(rs.subrange(0, 0).len() == 0);
        assert(run_steps(s, rs.subrange(0, 0)) == Ok::<MachineView, StepError>(s));
        assert(sequential_instruction(s));
        lemma_sequential_step(s, rs[0]);
        let s1 = after_step(s, rs[0]);
        let rest = rs.subrange(1, rs.len() as int);
        assert forall|k: int| 0 <= k < rest.len() implies
            (#[trigger] run_steps(s1, rest.subrange(0, k))) is Ok
            && sequential_instruction(run_steps(s1, rest.subrange(0, k))->Ok_0) by {
            let pref = rs.subrange(0, k + 1);
            assert(run_steps(s, pref) is Ok && sequential_instruction(run_steps(s, pref)->Ok_0));
            assert(pref.len() == k + 1);
            assert(pref[0] == rs[0]);
            assert(pref.subrange(1, pref.len() as int) =~= rest.subrange(0, k));
            assert(run_steps(s, pref) == run_steps(s1, rest.subrange(0, k)));
        }
        lemma_straight_line_run(s1, rest);
        assert(run_steps(s, rs) == run_steps(s1, rest));
    }
}

/// The round trip of loading and running: a freshly loaded program
/// starts at 0x200, and N straight-line steps leave the counter at
/// exactly 0x200 + 2N.
pub proof fn lemma_program_counter_round_trip(prog: Seq<u8>, rs: Seq<u8>)
    requires
        forall|k: int| 0 <= k < rs.len()
            ==> (#[trigger] run_steps(initial_view(prog), rs.subrange(0, k))) is Ok
            && sequential_instruction(run_steps(initial_view(prog), rs.subrange(0, k))->Ok_0),
    ensures
        run_steps(initial_view(prog), rs) is Ok,
        run_steps(initial_view(prog), rs)->Ok_0.pc == 0x200 + 2 * rs.len(),
{
    lemma_straight_line_run(initial_view(prog), rs);
}

} // verus!
