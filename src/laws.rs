use vstd::prelude::*;

use crate::machine::{
    start,
    advance, closes, code_of, depth, dispatch, final_snapshot, halted, lemma_closes_unique, lemma_trace_stays,
    load_spec, machine_wf, trace, verdict, Machine, RunError, Snapshot, MAX_CELL,
    NESTED_LOOP_LIMIT, OP_CLOSE, OP_DEC, OP_INC, OP_LEFT, OP_OPEN, OP_OUTPUT, OP_RIGHT,
    STEP_LIMIT, TAPE_SIZE,
};

verus! {

/// The instruction pointer stands on an instruction of a full-size program.
pub open spec fn at_instruction(prog: Seq<u8>, m: Machine) -> bool {
    &&& prog.len() == TAPE_SIZE
    &&& machine_wf(m)
    &&& m.ip < TAPE_SIZE
}

/// Cells wrap: `+` on `MAX_CELL` gives 0, and `-` on 0 gives `MAX_CELL`.
pub proof fn lemma_cell_wraparound(prog: Seq<u8>, m: Machine, input: u8)
    requires
        at_instruction(prog, m),
    ensures
        prog[m.ip] == OP_INC && m.tape[m.dp] == MAX_CELL ==> dispatch(prog, m, input) == Ok::<
            Machine,
            RunError,
        >(Machine { tape: m.tape.update(m.dp, 0), ..m }),
        prog[m.ip] == OP_DEC && m.tape[m.dp] == 0 ==> dispatch(prog, m, input) == Ok::<
            Machine,
            RunError,
        >(Machine { tape: m.tape.update(m.dp, MAX_CELL), ..m }),
{
}

/// The data pointer wraps: `>` on the last cell gives cell 0, and `<` on
/// cell 0 gives the last cell.
pub proof fn lemma_pointer_wraparound(prog: Seq<u8>, m: Machine, input: u8)
    requires
        at_instruction(prog, m),
    ensures
        prog[m.ip] == OP_RIGHT && m.dp == TAPE_SIZE - 1 ==> dispatch(prog, m, input) == Ok::<
            Machine,
            RunError,
        >(Machine { dp: 0, ..m }),
        prog[m.ip] == OP_LEFT && m.dp == 0 ==> dispatch(prog, m, input) == Ok::<
            Machine,
            RunError,
        >(Machine { dp: TAPE_SIZE - 1, ..m }),
{
}

/// A `[` met with a zero cell skips its loop: the next instruction run is
/// the one after the matching `]`, and nothing else changes.
pub proof fn lemma_skipped_loop(prog: Seq<u8>, s: Snapshot, ins: Seq<u8>, j: int)
    requires
        at_instruction(prog, s.machine),
        prog[s.machine.ip] == OP_OPEN,
        s.machine.tape[s.machine.dp] == 0,
        closes(prog, s.machine.ip, j),
    ensures
        advance(prog, s, ins) == (Snapshot {
            machine: Machine { ip: j + 1, ..s.machine },
            fault: None,
            ..s
        }),
{
    let c = choose|c: int| closes(prog, s.machine.ip, c);
    lemma_closes_unique(prog, s.machine.ip, c, j);
}

/// A loop is run through once and then left: a `[` met with a nonzero cell
/// goes on into the body with the loop active; when the body brings the
/// machine to the matching `]` with its cell at zero, that loop is no
/// longer active and the next instruction run is the one after the `]`.
pub proof fn lemma_loop_left_at_zero(
    prog: Seq<u8>,
    s: Snapshot,
    t: Snapshot,
    ins: Seq<u8>,
    j: int,
)
    requires
        at_instruction(prog, s.machine),
        prog[s.machine.ip] == OP_OPEN,
        s.machine.tape[s.machine.dp] != 0,
        s.machine.stack.len() < NESTED_LOOP_LIMIT,
        closes(prog, s.machine.ip, j),
        at_instruction(prog, t.machine),
        t.machine.ip == j,
        t.machine.stack == s.machine.stack.push(s.machine.ip),
        t.machine.tape[t.machine.dp] == 0,
    ensures
        advance(prog, s, ins).machine == (Machine {
            ip: s.machine.ip + 1,
            stack: s.machine.stack.push(s.machine.ip),
            ..s.machine
        }),
        advance(prog, s, ins).fault is None,
        advance(prog, t, ins).machine == (Machine {
            ip: j + 1,
            stack: s.machine.stack,
            ..t.machine
        }),
        advance(prog, t, ins).fault is None,
{
    assert(prog[j] == OP_CLOSE) by {
        assert(prog[j] != OP_CLOSE ==> depth(prog, s.machine.ip, j + 1)
            >= depth(prog, s.machine.ip, j));
    }
    assert(s.machine.stack.push(s.machine.ip).drop_last() =~= s.machine.stack);
}

/// The text of `n` increments followed by one output.
pub open spec fn increments_then_output(n: nat) -> Seq<char> {
    Seq::new(n, |i: int| '+').push('.')
}

pub open spec fn zero_tape() -> Seq<u8> {
    Seq::new(TAPE_SIZE as nat, |i: int| 0u8)
}

proof fn lemma_increments(n: nat, ins: Seq<u8>, k: nat)
    requires
        n + 1 < TAPE_SIZE,
        k <= n,
    ensures
        trace(load_spec(increments_then_output(n)), ins, k) == (Snapshot {
            machine: Machine {
                tape: zero_tape().update(0, (k % 256) as u8),
                dp: 0,
                ip: k as int,
                stack: Seq::empty(),
            },
            consumed: 0,
            emitted: Seq::empty(),
            fault: None,
        }),
    decreases k,
{
    let prog = load_spec(increments_then_output(n));
    if k == 0 {
        assert(zero_tape().update(0, 0u8) =~= zero_tape());
    } else {
        lemma_increments(n, ins, (k - 1) as nat);
        let p = (k - 1) as int;
        assert(prog[p] == OP_INC);
        assert(zero_tape().update(0, ((k - 1) % 256) as u8).update(0, ((k % 256) as u8)) =~= zero_tape().update(0, (k % 256) as u8));
    }
}

/// A program of `n` increments and one output writes exactly one cell,
/// `n` modulo `MAX_CELL + 1`, and ends normally, whatever the input.
pub proof fn lemma_increments_then_output(n: nat, ins: Seq<u8>)
    requires
        n + 1 < TAPE_SIZE,
    ensures
        final_snapshot(load_spec(increments_then_output(n)), ins).emitted == seq![(n % 256) as u8],
        verdict(
            load_spec(increments_then_output(n)),
            final_snapshot(load_spec(increments_then_output(n)), ins),
        ) == Ok::<(), RunError>(()),
{
    let prog = load_spec(increments_then_output(n));
    lemma_increments(n, ins, n);
    assert(prog[n as int] == OP_OUTPUT);
    assert(trace(prog, ins, n + 1).emitted =~= seq![(n % 256) as u8]);
    assert(halted(prog, trace(prog, ins, n + 1).machine));
    lemma_trace_stays(prog, ins, n + 1, STEP_LIMIT as nat);
}

proof fn lemma_depth_positive_without_close(prog: Seq<u8>, k: int)
    requires
        prog.len() > 0,
        prog[0] == OP_OPEN,
        1 <= k <= prog.len(),
        forall|i: int| 0 <= i < prog.len() ==> prog[i] != OP_CLOSE,
    ensures
        depth(prog, 0, k) >= 1,
    decreases k,
{
    if k > 1 {
        lemma_depth_positive_without_close(prog, k - 1);
    } else {
        assert(depth(prog, 0, 0) == 0);
    }
}

/// A program that opens with `[` and holds no `]` is rejected as an
/// unterminated loop, whatever the input.
pub proof fn lemma_unclosed_loop_rejected(text: Seq<char>, ins: Seq<u8>)
    requires
        text.len() > 0,
        text[0] == '[',
        forall|i: int| 0 <= i < text.len() ==> code_of(#[trigger] text[i]) != OP_CLOSE,
    ensures
        verdict(load_spec(text), final_snapshot(load_spec(text), ins)) == Err::<(), RunError>(
            RunError::UnterminatedLoop,
        ),
{
    let prog = load_spec(text);
    assert(prog[0] == OP_OPEN);
    assert forall|i: int| 0 <= i < prog.len() implies prog[i] != OP_CLOSE by {
        if i < text.len() {
            assert(code_of(text[i]) != OP_CLOSE);
        }
    }
    assert(!exists|j: int| closes(prog, 0, j)) by {
        if exists|j: int| closes(prog, 0, j) {
            let j = choose|j: int| closes(prog, 0, j);
            lemma_depth_positive_without_close(prog, j + 1);
        }
    }
    assert(trace(prog, ins, 0) == start());
    assert(!halted(prog, start().machine));
    assert(trace(prog, ins, 1) == advance(prog, start(), ins));
    assert(trace(prog, ins, 1).fault == Some(RunError::UnterminatedLoop));
    lemma_trace_stays(prog, ins, 1, STEP_LIMIT as nat);
}

} // verus!
