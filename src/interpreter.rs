use vstd::prelude::*;

use crate::machine::{
    closes, code_of, depth, dispatch, final_snapshot, initial_machine, lemma_closes_unique,
    lemma_trace_prefix, lemma_trace_stays, load_spec, machine_wf, trace, verdict, Machine,
    RunError, Snapshot, MAX_CELL, NESTED_LOOP_LIMIT, OP_CLOSE, OP_DEC, OP_INC, OP_INPUT, OP_LEFT,
    OP_OPEN, OP_OUTPUT, OP_RIGHT, STEP_LIMIT, TAPE_SIZE,
};

verus! {

/// Where `,` gets its characters from.
pub trait Input {
    /// The next character; `'\0'` when there is none.
    fn input(&mut self) -> char {
        '\0'
    }
}

/// Where `.` sends its characters to.
pub trait Output {
    /// Takes one character.
    fn output(&mut self, _c: char) {
    }
}

/// An engine for one program, with the collaborators it reads from and
/// writes to.
pub struct Interpreter<I, O> where I: Input, O: Output {
    input: I,
    output: O,
    data_ptr: usize,
    data_tape: Vec<u8>,
    instruction_ptr: usize,
    instruction_tape: Vec<u8>,
    /// Positions of the `[` of the active loops, innermost last.
    loop_stack: Vec<usize>,
    /// The cells that `,` has stored during the latest run.
    read: Ghost<Seq<u8>>,
    /// The cells that `.` has sent out during the latest run.
    written: Ghost<Seq<u8>>,
}

/// The program tape of a source text: each character's code in its own
/// cell, zeros after the text, and nothing of the text past `TAPE_SIZE`.
fn instruction_tape_from_str(s: &str) -> (tape: Vec<u8>)
    ensures
        tape@ == load_spec(s@),
{
    let mut tape: Vec<u8> = vec![0u8; TAPE_SIZE];
    let mut i: usize = 0;
    for ch in it: s.chars()
        invariant
            tape@.len() == TAPE_SIZE,
            i == (if it.index() < TAPE_SIZE {
                it.index() as int
            } else {
                TAPE_SIZE as int
            }),
            it.seq() == s@,
            forall|k: int|
                0 <= k < TAPE_SIZE ==> tape@[k] == (if k < i {
                    code_of(s@[k])
                } else {
                    0u8
                }),
    {
        if i < TAPE_SIZE {
            tape.set(i, (ch as u32 % 256) as u8);
            i = i + 1;
        }
    }
    assert(tape@ =~= load_spec(s@));
    tape
}

pub open spec fn stack_view(s: Seq<usize>) -> Seq<int> {
    s.map_values(|p: usize| p as int)
}

impl<I, O> Interpreter<I, O> where I: Input, O: Output {
    /// The program tape.
    pub closed spec fn program(&self) -> Seq<u8> {
        self.instruction_tape@
    }

    /// The data tape, the two pointers and the active loops.
    pub closed spec fn machine(&self) -> Machine {
        Machine {
            tape: self.data_tape@,
            dp: self.data_ptr as int,
            ip: self.instruction_ptr as int,
            stack: stack_view(self.loop_stack@),
        }
    }

    /// The cells that `,` stored during the latest run, in order.
    pub closed spec fn inputs_read(&self) -> Seq<u8> {
        self.read@
    }

    /// The cells that `.` sent out during the latest run, in order.
    pub closed spec fn outputs_written(&self) -> Seq<u8> {
        self.written@
    }

    pub closed spec fn wf(&self) -> bool {
        &&& self.instruction_tape@.len() == TAPE_SIZE
        &&& machine_wf(self.machine())
    }

    closed spec fn op(&self) -> u8 {
        self.instruction_tape@[self.instruction_ptr as int]
    }

    /// All but the machine is as in `before`.
    closed spec fn only_machine_changed(&self, before: &Self) -> bool {
        &&& self.instruction_tape@ == before.instruction_tape@
        &&& self.read@ == before.read@
        &&& self.written@ == before.written@
    }

    /// The instruction at `before`'s pointer took the machine where
    /// `dispatch` says, or failed with its error and changed nothing.
    closed spec fn dispatched(&self, before: &Self, r: Result<(), RunError>) -> bool {
        match dispatch(before.program(), before.machine(), 0) {
            Ok(m) => r is Ok && self.machine() == m,
            Err(e) => r == Err::<(), RunError>(e) && self.machine() == before.machine(),
        }
    }

    /// Loads `program` onto the program tape; the collaborators are kept as
    /// given and never replaced.
    pub fn new(program: &str, input: I, output: O) -> (r: Self)
        ensures
            r.wf(),
            r.program() == load_spec(program@),
            r.machine() == initial_machine(),
            r.inputs_read() == Seq::<u8>::empty(),
            r.outputs_written() == Seq::<u8>::empty(),
    {
        let r = Interpreter {
            input,
            output,
            data_ptr: 0,
            data_tape: vec![0u8; TAPE_SIZE],
            instruction_ptr: 0,
            instruction_tape: instruction_tape_from_str(program),
            loop_stack: Vec::new(),
            read: Ghost(Seq::empty()),
            written: Ghost(Seq::empty()),
        };
        assert(r.data_tape@ =~= initial_machine().tape);
        assert(stack_view(r.loop_stack@) =~= Seq::<int>::empty());
        r
    }

    /// Zeroes the data tape and both pointers and empties the loop stack;
    /// the collaborators are left alone.
    fn reset(&mut self)
        requires
            old(self).wf(),
        ensures
            final(self).wf(),
            final(self).program() == old(self).program(),
            final(self).machine() == initial_machine(),
            final(self).inputs_read() == Seq::<u8>::empty(),
            final(self).outputs_written() == Seq::<u8>::empty(),
    {
        self.data_ptr = 0;
        self.data_tape = vec![0u8; TAPE_SIZE];
        self.instruction_ptr = 0;
        self.loop_stack = Vec::new();
        self.read = Ghost(Seq::empty());
        self.written = Ghost(Seq::empty());
        assert(self.data_tape@ =~= initial_machine().tape);
        assert(stack_view(self.loop_stack@) =~= Seq::<int>::empty());
    }

    /// `+`: the current cell goes up by one, from `MAX_CELL` back to 0.
    fn increment(&mut self)
        requires
            old(self).wf(),
            old(self).instruction_ptr < TAPE_SIZE,
            old(self).op() == OP_INC,
        ensures
            final(self).wf(),
            final(self).only_machine_changed(old(self)),
            dispatch(old(self).program(), old(self).machine(), 0) == Ok::<Machine, RunError>(
                final(self).machine(),
            ),
    {
        let dp = self.data_ptr;
        let v = self.data_tape[dp];
        let next = if v == MAX_CELL {
            0
        } else {
            v + 1
        };
        self.data_tape.set(dp, next);
    }

    /// `-`: the current cell goes down by one, from 0 back to `MAX_CELL`.
    fn decrement(&mut self)
        requires
            old(self).wf(),
            old(self).instruction_ptr < TAPE_SIZE,
            old(self).op() == OP_DEC,
        ensures
            final(self).wf(),
            final(self).only_machine_changed(old(self)),
            dispatch(old(self).program(), old(self).machine(), 0) == Ok::<Machine, RunError>(
                final(self).machine(),
            ),
    {
        let dp = self.data_ptr;
        let v = self.data_tape[dp];
        let next = if v == 0 {
            MAX_CELL
        } else {
            v - 1
        };
        self.data_tape.set(dp, next);
    }

    /// `<`: the data pointer moves left, from 0 to the last cell.
    fn left(&mut self)
        requires
            old(self).wf(),
            old(self).instruction_ptr < TAPE_SIZE,
            old(self).op() == OP_LEFT,
        ensures
            final(self).wf(),
            final(self).only_machine_changed(old(self)),
            dispatch(old(self).program(), old(self).machine(), 0) == Ok::<Machine, RunError>(
                final(self).machine(),
            ),
    {
        if self.data_ptr == 0 {
            self.data_ptr = TAPE_SIZE - 1;
        } else {
            self.data_ptr = self.data_ptr - 1;
        }
    }

    /// `>`: the data pointer moves right, from the last cell to 0.
    fn right(&mut self)
        requires
            old(self).wf(),
            old(self).instruction_ptr < TAPE_SIZE,
            old(self).op() == OP_RIGHT,
        ensures
            final(self).wf(),
            final(self).only_machine_changed(old(self)),
            dispatch(old(self).program(), old(self).machine(), 0) == Ok::<Machine, RunError>(
                final(self).machine(),
            ),
    {
        if self.data_ptr == TAPE_SIZE - 1 {
            self.data_ptr = 0;
        } else {
            self.data_ptr = self.data_ptr + 1;
        }
    }

    /// `.`: hands the current cell, as a character, to the output.
    fn output(&mut self)
        requires
            old(self).wf(),
        ensures
            final(self).wf(),
            final(self).machine() == old(self).machine(),
            final(self).instruction_tape@ == old(self).instruction_tape@,
            final(self).read@ == old(self).read@,
            final(self).written@ == old(self).written@.push(
                old(self).data_tape@[old(self).data_ptr as int],
            ),
    {
        let v = self.data_tape[self.data_ptr];
        self.output.output(v as char);
        self.written = Ghost(self.written@.push(v));
    }

    /// `,`: stores the code of the input's next character in the current
    /// cell.
    fn input(&mut self)
        requires
            old(self).wf(),
            old(self).instruction_ptr < TAPE_SIZE,
            old(self).op() == OP_INPUT,
        ensures
            final(self).wf(),
            final(self).instruction_tape@ == old(self).instruction_tape@,
            final(self).written@ == old(self).written@,
            final(self).read@.drop_last() == old(self).read@,
            final(self).read@.len() == old(self).read@.len() + 1,
            dispatch(old(self).program(), old(self).machine(), final(self).read@.last())
                == Ok::<Machine, RunError>(final(self).machine()),
    {
        let c = self.input.input();
        let v = (c as u32 % 256) as u8;
        self.data_tape.set(self.data_ptr, v);
        self.read = Ghost(self.read@.push(v));
        assert(self.read@.drop_last() =~= old(self).read@);
    }

    /// Sends the instruction pointer back to the `[` of the innermost loop.
    fn goto_topmost_loop(&mut self)
        requires
            old(self).wf(),
            old(self).loop_stack@.len() > 0,
        ensures
            final(self).wf(),
            final(self).only_machine_changed(old(self)),
            final(self).machine() == (Machine {
                ip: old(self).machine().stack.last(),
                ..old(self).machine()
            }),
    {
        self.instruction_ptr = self.loop_stack[self.loop_stack.len() - 1];
    }

    /// `[`: with a nonzero cell, records the loop and goes on into its body;
    /// with a zero cell, moves to the matching `]`.
    fn enter_loop(&mut self) -> (r: Result<(), RunError>)
        requires
            old(self).wf(),
            old(self).instruction_ptr < TAPE_SIZE,
            old(self).op() == OP_OPEN,
        ensures
            final(self).wf(),
            final(self).only_machine_changed(old(self)),
            final(self).dispatched(old(self), r),
            final(self).instruction_ptr < TAPE_SIZE,
    {
        let ghost prog = self.instruction_tape@;
        let start = self.instruction_ptr;
        if self.data_tape[self.data_ptr] != 0 {
            if self.loop_stack.len() >= NESTED_LOOP_LIMIT {
                return Err(RunError::LoopStackOverflow);
            }
            self.loop_stack.push(start);
            assert(stack_view(self.loop_stack@) =~= stack_view(old(self).loop_stack@).push(
                start as int,
            ));
            return Ok(());
        }
        let mut counter: usize = 1;
        let mut k: usize = start + 1;
        assert(depth(prog, start as int, start + 1) == 1) by {
            assert(depth(prog, start as int, start as int) == 0);
        }
        while k < TAPE_SIZE
            invariant
                self.wf(),
                *self == *old(self),
                self.data_tape@[self.data_ptr as int] == 0,
                prog[start as int] == OP_OPEN,
                prog == self.instruction_tape@,
                start == self.instruction_ptr,
                start < k <= TAPE_SIZE,
                counter as int == depth(prog, start as int, k as int),
                counter <= k - start,
                forall|t: int| start < t <= k ==> depth(prog, start as int, t) > 0,
            decreases TAPE_SIZE - k,
        {
            let op = self.instruction_tape[k];
            if op == OP_OPEN {
                counter = counter + 1;
            } else if op == OP_CLOSE {
                counter = counter - 1;
            }
            assert(depth(prog, start as int, k + 1) == depth(prog, start as int, k as int)
                + (if op == OP_OPEN {
                1int
            } else if op == OP_CLOSE {
                -1int
            } else {
                0int
            }));
            if counter == 0 {
                assert(closes(prog, start as int, k as int));
                proof {
                    let j = choose|j: int| closes(prog, start as int, j);
                    lemma_closes_unique(prog, start as int, j, k as int);
                }
                self.instruction_ptr = k;
                assert(exists|j: int| closes(prog, start as int, j));
                assert(self.machine() == (Machine {
                    ip: choose|j: int| closes(prog, start as int, j),
                    ..old(self).machine()
                }));
                return Ok(());
            }
            k = k + 1;
        }
        assert(!exists|j: int| closes(prog, start as int, j)) by {
            if exists|j: int| closes(prog, start as int, j) {
                let j = choose|j: int| closes(prog, start as int, j);
                assert(depth(prog, start as int, j + 1) > 0);
            }
        }
        Err(RunError::UnterminatedLoop)
    }

    /// `]`: with a nonzero cell, goes back to the innermost loop's `[`; with
    /// a zero cell, leaves that loop.
    fn exit_loop(&mut self) -> (r: Result<(), RunError>)
        requires
            old(self).wf(),
            old(self).instruction_ptr < TAPE_SIZE,
            old(self).op() == OP_CLOSE,
        ensures
            final(self).wf(),
            final(self).only_machine_changed(old(self)),
            final(self).dispatched(old(self), r),
            final(self).instruction_ptr < TAPE_SIZE,
    {
        if self.loop_stack.len() == 0 {
            return Err(RunError::LoopStackUnderflow);
        }
        if self.data_tape[self.data_ptr] != 0 {
            self.goto_topmost_loop();
        } else {
            self.loop_stack.pop();
            assert(stack_view(self.loop_stack@) =~= stack_view(old(self).loop_stack@).drop_last());
        }
        Ok(())
    }
    /// Runs the program from a fresh data tape, pointers and loop stack,
    /// until it reaches the zero after its text or a fault stops it.
    /// The collaborators are not reset: whatever state they hold carries
    /// over from one run to the next.
    ///
    /// The run is the one that `trace` describes, where `,` read the cells
    /// in `inputs_read()` and `.` wrote those in `outputs_written()`: it
    /// returns `Ok` when the program halts with no loop active, and the
    /// error of `verdict` otherwise.
    pub fn run(&mut self) -> (r: Result<(), RunError>)
        requires
            old(self).wf(),
        ensures
            final(self).wf(),
            final(self).program() == old(self).program(),
            r == verdict(
                final(self).program(),
                final_snapshot(final(self).program(), final(self).inputs_read()),
            ),
            final(self).machine() == final_snapshot(
                final(self).program(),
                final(self).inputs_read(),
            ).machine,
            final(self).outputs_written() == final_snapshot(
                final(self).program(),
                final(self).inputs_read(),
            ).emitted,
            final(self).inputs_read().len() == final_snapshot(
                final(self).program(),
                final(self).inputs_read(),
            ).consumed,
    {
        self.reset();
        let ghost prog = self.instruction_tape@;
        let mut steps: u64 = 0;
        loop
            invariant
                self.wf(),
                self.instruction_tape@ == prog,
                prog == old(self).instruction_tape@,
                trace(prog, self.read@, steps as nat) == (Snapshot {
                    machine: self.machine(),
                    consumed: self.read@.len(),
                    emitted: self.written@,
                    fault: None,
                }),
            decreases STEP_LIMIT - steps,
        {
            if self.instruction_ptr < TAPE_SIZE && self.instruction_tape[self.instruction_ptr] == 0 {
                proof {
                    lemma_trace_stays(prog, self.read@, steps as nat, STEP_LIMIT as nat);
                }
                if self.loop_stack.len() == 0 {
                    return Ok(());
                } else {
                    return Err(RunError::UnterminatedLoop);
                }
            }
            if steps == STEP_LIMIT {
                return Err(RunError::StepLimit);
            }
            if self.instruction_ptr >= TAPE_SIZE {
                proof {
                    lemma_trace_stays(prog, self.read@, (steps + 1) as nat, STEP_LIMIT as nat);
                }
                return Err(RunError::InstructionOverrun);
            }
            let ghost before = *self;
            let ins = self.instruction_tape[self.instruction_ptr];
            let res: Result<(), RunError> = if ins == OP_OPEN {
                self.enter_loop()
            } else if ins == OP_CLOSE {
                self.exit_loop()
            } else {
                if ins == OP_INC {
                    self.increment();
                } else if ins == OP_DEC {
                    self.decrement();
                } else if ins == OP_RIGHT {
                    self.right();
                } else if ins == OP_LEFT {
                    self.left();
                } else if ins == OP_OUTPUT {
                    self.output();
                } else if ins == OP_INPUT {
                    self.input();
                }
                Ok(())
            };
            proof {
                if ins == OP_INPUT {
                    lemma_trace_prefix(prog, before.read@, seq![self.read@.last()], steps as nat);
                    assert(before.read@ + seq![self.read@.last()] =~= self.read@);
                }
            }
            if let Err(e) = res {
                proof {
                    lemma_trace_stays(prog, self.read@, (steps + 1) as nat, STEP_LIMIT as nat);
                }
                return Err(e);
            }
            self.instruction_ptr = self.instruction_ptr + 1;
            steps = steps + 1;
        }
    }

    /// The value of the current cell.
    pub fn current_cell(&self) -> (v: u8)
        requires
            self.wf(),
        ensures
            v == self.machine().tape[self.machine().dp],
    {
        self.data_tape[self.data_ptr]
    }

    /// The position of the data pointer.
    pub fn data_pointer(&self) -> (p: usize)
        ensures
            p == self.machine().dp,
    {
        self.data_ptr
    }
}

} // verus!
