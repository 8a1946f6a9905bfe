use vstd::prelude::*;

verus! {

/// Number of slots in the program tape and in the data tape.
pub const TAPE_SIZE: usize = 65535;

/// Deepest nesting of active loops that a run may reach.
pub const NESTED_LOOP_LIMIT: usize = 1024;

/// Largest value a data cell can hold.
pub const MAX_CELL: u8 = 255;

/// Number of instructions after which a run gives up.
pub const STEP_LIMIT: u64 = u64::MAX;

/// `+`: increment the current cell.
pub const OP_INC: u8 = 43;

/// `-`: decrement the current cell.
pub const OP_DEC: u8 = 45;

/// `>`: move the data pointer right.
pub const OP_RIGHT: u8 = 62;

/// `<`: move the data pointer left.
pub const OP_LEFT: u8 = 60;

/// `.`: write the current cell out.
pub const OP_OUTPUT: u8 = 46;

/// `,`: read a character into the current cell.
pub const OP_INPUT: u8 = 44;

/// `[`: enter or skip a loop.
pub const OP_OPEN: u8 = 91;

/// `]`: repeat or leave a loop.
pub const OP_CLOSE: u8 = 93;

/// The fatal conditions that end a run early.
#[derive(Debug, Clone, Copy, PartialEq, Eq, Structural)]
pub enum RunError {
    /// A `[` was entered while `NESTED_LOOP_LIMIT` loops were already active.
    LoopStackOverflow,
    /// A `]` was reached with no active loop.
    LoopStackUnderflow,
    /// The instruction pointer moved past the end of the program tape.
    InstructionOverrun,
    /// A `[` has no matching `]`: either a skip ran off the end of the tape,
    /// or the program halted while a loop was still active.
    UnterminatedLoop,
    /// The run executed `STEP_LIMIT` instructions without halting.
    StepLimit,
}

/// The cell a source character is stored in: its code point, wrapped to the
/// width of a cell.
pub open spec fn code_of(c: char) -> u8 {
    (c as u32 % 256) as u8
}

/// The program tape that a source text loads into: one cell per character,
/// zero-padded, and cut off at `TAPE_SIZE` characters.
pub open spec fn load_spec(text: Seq<char>) -> Seq<u8> {
    Seq::new(TAPE_SIZE as nat, |i: int| if i < text.len() { code_of(text[i]) } else { 0u8 })
}

pub open spec fn inc_cell(v: u8) -> u8 {
    ((v + 1) % 256) as u8
}

pub open spec fn dec_cell(v: u8) -> u8 {
    ((v + 255) % 256) as u8
}

pub open spec fn move_right(p: int) -> int {
    (p + 1) % (TAPE_SIZE as int)
}

pub open spec fn move_left(p: int) -> int {
    (p + TAPE_SIZE - 1) % (TAPE_SIZE as int)
}

/// The state of the engine between two instructions.
pub struct Machine {
    pub tape: Seq<u8>,
    pub dp: int,
    pub ip: int,
    /// Positions of the `[` of the active loops, innermost last.
    pub stack: Seq<int>,
}

pub open spec fn initial_machine() -> Machine {
    Machine { tape: Seq::new(TAPE_SIZE as nat, |i: int| 0u8), dp: 0, ip: 0, stack: Seq::empty() }
}

pub open spec fn machine_wf(m: Machine) -> bool {
    &&& m.tape.len() == TAPE_SIZE
    &&& 0 <= m.dp < TAPE_SIZE
    &&& 0 <= m.ip <= TAPE_SIZE
    &&& m.stack.len() <= NESTED_LOOP_LIMIT
    &&& forall|k: int| 0 <= k < m.stack.len() ==> 0 <= #[trigger] m.stack[k] < TAPE_SIZE
}

pub open spec fn bracket_delta(op: u8) -> int {
    if op == OP_OPEN {
        1
    } else if op == OP_CLOSE {
        -1
    } else {
        0
    }
}

/// Opened minus closed brackets among `prog[a..b]`.
pub open spec fn depth(prog: Seq<u8>, a: int, b: int) -> int
    decreases b - a,
{
    if b <= a {
        0
    } else {
        depth(prog, a, b - 1) + bracket_delta(prog[b - 1])
    }
}

/// `j` holds the `]` that matches the `[` at `open`: the first position after
/// `open` at which the brackets opened since `open` are all closed again.
pub open spec fn closes(prog: Seq<u8>, open: int, j: int) -> bool {
    &&& open < j < prog.len()
    &&& depth(prog, open, j + 1) == 0
    &&& forall|k: int| open < k <= j ==> depth(prog, open, k) > 0
}

/// The effect of the instruction at `m.ip`, before the instruction pointer
/// advances; `input` is the cell a `,` stores.
pub open spec fn dispatch(prog: Seq<u8>, m: Machine, input: u8) -> Result<Machine, RunError> {
    let op = prog[m.ip];
    let cell = m.tape[m.dp];
    if op == OP_INC {
        Ok(Machine { tape: m.tape.update(m.dp, inc_cell(cell)), ..m })
    } else if op == OP_DEC {
        Ok(Machine { tape: m.tape.update(m.dp, dec_cell(cell)), ..m })
    } else if op == OP_RIGHT {
        Ok(Machine { dp: move_right(m.dp), ..m })
    } else if op == OP_LEFT {
        Ok(Machine { dp: move_left(m.dp), ..m })
    } else if op == OP_INPUT {
        Ok(Machine { tape: m.tape.update(m.dp, input), ..m })
    } else if op == OP_OPEN {
        if cell != 0 {
            if m.stack.len() >= NESTED_LOOP_LIMIT {
                Err(RunError::LoopStackOverflow)
            } else {
                Ok(Machine { stack: m.stack.push(m.ip), ..m })
            }
        } else if exists|j: int| closes(prog, m.ip, j) {
            Ok(Machine { ip: choose|j: int| closes(prog, m.ip, j), ..m })
        } else {
            Err(RunError::UnterminatedLoop)
        }
    } else if op == OP_CLOSE {
        if m.stack.len() == 0 {
            Err(RunError::LoopStackUnderflow)
        } else if cell != 0 {
            Ok(Machine { ip: m.stack.last(), ..m })
        } else {
            Ok(Machine { stack: m.stack.drop_last(), ..m })
        }
    } else {
        Ok(m)
    }
}

/// A run observed after some number of steps: the machine, how many input
/// cells it has read, the cells it has written out, and the fault that
/// stopped it, if one did.
pub struct Snapshot {
    pub machine: Machine,
    pub consumed: nat,
    pub emitted: Seq<u8>,
    pub fault: Option<RunError>,
}

pub open spec fn start() -> Snapshot {
    Snapshot { machine: initial_machine(), consumed: 0, emitted: Seq::empty(), fault: None }
}

/// The instruction pointer stands on the zero that ends the program.
pub open spec fn halted(prog: Seq<u8>, m: Machine) -> bool {
    0 <= m.ip < prog.len() && prog[m.ip] == 0
}

pub open spec fn stopped(prog: Seq<u8>, s: Snapshot) -> bool {
    s.fault is Some || halted(prog, s.machine)
}

pub open spec fn next_input(ins: Seq<u8>, consumed: nat) -> u8 {
    if consumed < ins.len() {
        ins[consumed as int]
    } else {
        0
    }
}

/// One step: fetch, dispatch, advance; `,` reads the next cell of `ins`.
pub open spec fn advance(prog: Seq<u8>, s: Snapshot, ins: Seq<u8>) -> Snapshot {
    let m = s.machine;
    if !(0 <= m.ip < prog.len()) {
        Snapshot { fault: Some(RunError::InstructionOverrun), ..s }
    } else {
        let op = prog[m.ip];
        match dispatch(prog, m, next_input(ins, s.consumed)) {
            Err(e) => Snapshot { fault: Some(e), ..s },
            Ok(n) => Snapshot {
                machine: Machine { ip: n.ip + 1, ..n },
                consumed: if op == OP_INPUT {
                    s.consumed + 1
                } else {
                    s.consumed
                },
                emitted: if op == OP_OUTPUT {
                    s.emitted.push(m.tape[m.dp])
                } else {
                    s.emitted
                },
                fault: None,
            },
        }
    }
}

/// The run of `prog` after `n` steps, where the `,` instructions read `ins`
/// in order; once stopped it stays as it is.
pub open spec fn trace(prog: Seq<u8>, ins: Seq<u8>, n: nat) -> Snapshot
    decreases n,
{
    if n == 0 {
        start()
    } else {
        let s = trace(prog, ins, (n - 1) as nat);
        if stopped(prog, s) {
            s
        } else {
            advance(prog, s, ins)
        }
    }
}

/// What a run returns once it has stopped at `s`, or given up there.
pub open spec fn verdict(prog: Seq<u8>, s: Snapshot) -> Result<(), RunError> {
    if let Some(e) = s.fault {
        Err(e)
    } else if !halted(prog, s.machine) {
        Err(RunError::StepLimit)
    } else if s.machine.stack.len() > 0 {
        Err(RunError::UnterminatedLoop)
    } else {
        Ok(())
    }
}

/// The run of `prog` on `ins`, as far as a run goes.
pub open spec fn final_snapshot(prog: Seq<u8>, ins: Seq<u8>) -> Snapshot {
    trace(prog, ins, STEP_LIMIT as nat)
}

pub proof fn lemma_closes_unique(prog: Seq<u8>, open: int, j1: int, j2: int)
    requires
        closes(prog, open, j1),
        closes(prog, open, j2),
    ensures
        j1 == j2,
{
    if j1 < j2 {
        assert(depth(prog, open, j1 + 1) > 0);
    } else if j2 < j1 {
        assert(depth(prog, open, j2 + 1) > 0);
    }
}

/// A stopped run stays as it is.
pub proof fn lemma_trace_stays(prog: Seq<u8>, ins: Seq<u8>, k: nat, n: nat)
    requires
        k <= n,
        stopped(prog, trace(prog, ins, k)),
    ensures
        trace(prog, ins, n) == trace(prog, ins, k),
    decreases n - k,
{
    if k < n {
        lemma_trace_stays(prog, ins, k, (n - 1) as nat);
    }
}

/// Input cells beyond those a run has read do not change it.
pub proof fn lemma_trace_prefix(prog: Seq<u8>, ins: Seq<u8>, more: Seq<u8>, n: nat)
    requires
        trace(prog, ins, n).consumed <= ins.len(),
    ensures
        trace(prog, ins + more, n) == trace(prog, ins, n),
    decreases n,
{
    if n > 0 {
        let p = (n - 1) as nat;
        assert(trace(prog, ins, p).consumed <= trace(prog, ins, n).consumed);
        lemma_trace_prefix(prog, ins, more, p);
        let s = trace(prog, ins, p);
        if !stopped(prog, s) && s.consumed < ins.len() {
            assert((ins + more)[s.consumed as int] == ins[s.consumed as int]);
        }
    }
}

} // verus!
