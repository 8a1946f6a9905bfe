use std::cell::RefCell;
use std::collections::VecDeque;
use std::rc::Rc;

use bfcore::{Input, Interpreter, Output, RunError};

#[derive(Clone, Default)]
struct Feed {
    pending: Rc<RefCell<VecDeque<char>>>,
    calls: Rc<RefCell<usize>>,
}

impl Feed {
    fn of(text: &str) -> Feed {
        let feed = Feed::default();
        feed.pending.borrow_mut().extend(text.chars());
        feed
    }
}

impl Input for Feed {
    fn input(&mut self) -> char {
        *self.calls.borrow_mut() += 1;
        self.pending.borrow_mut().pop_front().unwrap_or('\0')
    }
}

#[derive(Clone, Default)]
struct Recorder {
    seen: Rc<RefCell<Vec<char>>>,
}

impl Recorder {
    fn codes(&self) -> Vec<u32> {
        self.seen.borrow().iter().map(|c| *c as u32).collect()
    }
}

impl Output for Recorder {
    fn output(&mut self, c: char) {
        self.seen.borrow_mut().push(c);
    }
}

struct Silent;

impl Input for Silent {}

impl Output for Silent {}

fn run_program(program: &str, input: &str) -> (Result<(), RunError>, Vec<u32>) {
    let out = Recorder::default();
    let mut it = Interpreter::new(program, Feed::of(input), out.clone());
    let r = it.run();
    (r, out.codes())
}

#[test]
fn three_increments_then_output() {
    let out = Recorder::default();
    let mut it = Interpreter::new("+++.", Silent, out.clone());
    assert_eq!(it.run(), Ok(()));
    assert_eq!(*out.seen.borrow(), vec!['\u{3}']);
}

#[test]
fn zeroing_loop_terminates_at_zero() {
    let mut it = Interpreter::new("+[-]", Silent, Silent);
    assert_eq!(it.run(), Ok(()));
    assert_eq!(it.current_cell(), 0);
    assert_eq!(it.data_pointer(), 0);
}

#[test]
fn unmatched_open_is_unterminated() {
    assert_eq!(run_program("[", "").0, Err(RunError::UnterminatedLoop));
    assert_eq!(run_program("[[]", "").0, Err(RunError::UnterminatedLoop));
    assert_eq!(run_program("+[+", "").0, Err(RunError::UnterminatedLoop));
}

#[test]
fn rerun_resets_tape_but_not_collaborators() {
    let feed = Feed::of("xy");
    let out = Recorder::default();
    let mut it = Interpreter::new(">+.,.", feed.clone(), out.clone());
    assert_eq!(it.run(), Ok(()));
    assert_eq!(it.data_pointer(), 1);
    assert_eq!(out.codes(), vec![1, 'x' as u32]);
    assert_eq!(it.run(), Ok(()));
    assert_eq!(it.data_pointer(), 1);
    assert_eq!(out.codes(), vec![1, 'x' as u32, 1, 'y' as u32]);
    assert_eq!(*feed.calls.borrow(), 2);
    assert!(feed.pending.borrow().is_empty());
    assert_eq!(it.run(), Ok(()));
    assert_eq!(out.codes(), vec![1, 'x' as u32, 1, 'y' as u32, 1, 0]);
    assert_eq!(*feed.calls.borrow(), 3);
}

#[test]
fn decrement_wraps_below_zero() {
    assert_eq!(run_program("-.", ""), (Ok(()), vec![255]));
}

#[test]
fn increment_wraps_past_max() {
    let program = format!("{}.", "+".repeat(256));
    assert_eq!(run_program(&program, ""), (Ok(()), vec![0]));
}

#[test]
fn increments_then_output_give_count_mod_cell() {
    for n in [0usize, 1, 65, 255, 256, 300, 1000] {
        let program = format!("{}.", "+".repeat(n));
        assert_eq!(run_program(&program, ""), (Ok(()), vec![(n % 256) as u32]));
    }
}

#[test]
fn output_hands_over_the_character() {
    let program = format!("{}.", "+".repeat(65));
    let out = Recorder::default();
    let mut it = Interpreter::new(&program, Silent, out.clone());
    assert_eq!(it.run(), Ok(()));
    assert_eq!(*out.seen.borrow(), vec!['A']);
}

#[test]
fn pointer_wraps_both_ways() {
    let mut it = Interpreter::new("<", Silent, Silent);
    assert_eq!(it.run(), Ok(()));
    assert_eq!(it.data_pointer(), 65534);
    let mut back = Interpreter::new("<>", Silent, Silent);
    assert_eq!(back.run(), Ok(()));
    assert_eq!(back.data_pointer(), 0);
    assert_eq!(run_program("<+>.<.", ""), (Ok(()), vec![0, 1]));
}

#[test]
fn zero_cell_skips_loop_body() {
    assert_eq!(run_program("[+.]+.", ""), (Ok(()), vec![1]));
    assert_eq!(run_program("[[+.]+.]++.", ""), (Ok(()), vec![2]));
}

#[test]
fn loop_body_repeats_until_zero() {
    assert_eq!(run_program("+++[.-]", ""), (Ok(()), vec![3, 2, 1]));
    assert_eq!(run_program("++[>+++[>+<-]<-]>>.", ""), (Ok(()), vec![6]));
}

#[test]
fn unrecognized_symbols_are_skipped() {
    assert_eq!(run_program("a+ b+\n.c", ""), (Ok(()), vec![2]));
}

#[test]
fn input_stores_character_code() {
    assert_eq!(run_program(",.,+.", "a"), (Ok(()), vec![97, 1]));
}

#[test]
fn input_wraps_to_cell_width() {
    assert_eq!(run_program(",.,.", "\u{100}\u{17f}"), (Ok(()), vec![0, 0x7f]));
}

#[test]
fn default_collaborators_read_nul() {
    let mut it = Interpreter::new("+,", Silent, Silent);
    assert_eq!(it.run(), Ok(()));
    assert_eq!(it.current_cell(), 0);
}

#[test]
fn program_characters_wrap_to_cell_width() {
    // U+012B keeps the low byte of `+`.
    assert_eq!(run_program("\u{12b}.", ""), (Ok(()), vec![1]));
}

#[test]
fn nul_in_text_ends_program() {
    assert_eq!(run_program("+.\0+.", ""), (Ok(()), vec![1]));
}

#[test]
fn close_without_open_underflows() {
    assert_eq!(run_program("]", "").0, Err(RunError::LoopStackUnderflow));
    assert_eq!(run_program("+]", "").0, Err(RunError::LoopStackUnderflow));
}

#[test]
fn nesting_past_limit_overflows() {
    let deep = format!("+{}", "[".repeat(1025));
    assert_eq!(run_program(&deep, "").0, Err(RunError::LoopStackOverflow));
    let at_limit = format!("+{}.-{}", "[".repeat(1024), "]".repeat(1024));
    assert_eq!(run_program(&at_limit, ""), (Ok(()), vec![1]));
}

#[test]
fn faulted_run_leaves_interpreter_reusable() {
    let out = Recorder::default();
    let mut it = Interpreter::new(",[.]", Feed::of("\0"), out.clone());
    assert_eq!(it.run(), Ok(()));
    assert_eq!(it.run(), Ok(()));
    assert!(out.codes().is_empty());
    let mut bad = Interpreter::new("+.]", Silent, out.clone());
    assert_eq!(bad.run(), Err(RunError::LoopStackUnderflow));
    assert_eq!(bad.run(), Err(RunError::LoopStackUnderflow));
    assert_eq!(out.codes(), vec![1, 1]);
}

#[test]
fn full_tape_without_end_overruns() {
    let full = "+".repeat(65535);
    assert_eq!(run_program(&full, "").0, Err(RunError::InstructionOverrun));
    let longer = "+".repeat(70000);
    assert_eq!(run_program(&longer, "").0, Err(RunError::InstructionOverrun));
}

#[test]
fn skip_to_last_slot_overruns() {
    let program = format!("{}[]", "a".repeat(65533));
    assert_eq!(run_program(&program, "").0, Err(RunError::InstructionOverrun));
}

#[test]
fn text_at_capacity_minus_one_halts() {
    let program = format!("{}.", "+".repeat(65533));
    assert_eq!(run_program(&program, ""), (Ok(()), vec![65533 % 256]));
}

#[test]
fn hello_world() {
    let program = "+[----->+++<]>+.---.+++++++..+++.[--->+<]>-----.--[->++++<]>-.--------.+++.------.--------.-[--->+<]>.";
    let out = Recorder::default();
    let mut it = Interpreter::new(program, Silent, out.clone());
    assert_eq!(it.run(), Ok(()));
    let text: String = out.seen.borrow().iter().collect();
    assert_eq!(text, "hello world!");
}
