use brainfuck::error::ErrorKind;
use brainfuck::exec::run;
use brainfuck::exec::RunOutcome;

const BUDGET: u64 = 1_000_000;

fn repeated(c: u8, n: usize) -> Vec<u8> {
    let mut v = Vec::new();
    for _ in 0..n {
        v.push(c);
    }
    v
}

#[test]
fn empty_program_halts_with_no_output() {
    assert_eq!(run(b"", b"", BUDGET), RunOutcome::Halted(vec![]));
}

#[test]
fn noop_program_halts_with_no_output() {
    assert_eq!(
        run(b"this text has no instruction symbols at all", b"", BUDGET),
        RunOutcome::Halted(vec![])
    );
}

#[test]
fn comment_characters_between_instructions_are_skipped() {
    assert_eq!(
        run(b"+ one + two + output: .", b"", BUDGET),
        RunOutcome::Halted(vec![3])
    );
}

#[test]
fn increments_accumulate() {
    let mut program = repeated(b'+', 255);
    program.push(b'.');
    assert_eq!(run(&program, b"", BUDGET), RunOutcome::Halted(vec![255]));
}

#[test]
fn increment_wraps_after_256_steps() {
    let mut program = repeated(b'+', 256);
    program.push(b'.');
    assert_eq!(run(&program, b"", BUDGET), RunOutcome::Halted(vec![0]));
}

#[test]
fn increment_wraps_modulo_256() {
    // 300 increments leave 300 mod 256 == 44.
    let mut program = repeated(b'+', 300);
    program.push(b'.');
    assert_eq!(run(&program, b"", BUDGET), RunOutcome::Halted(vec![44]));
}

#[test]
fn decrement_of_zero_cell_gives_255() {
    assert_eq!(run(b"-.", b"", BUDGET), RunOutcome::Halted(vec![255]));
}

#[test]
fn zero_entry_loop_is_skipped_entirely() {
    // Were the body executed, it would write output.
    assert_eq!(run(b"[+.+]", b"", BUDGET), RunOutcome::Halted(vec![]));
}

#[test]
fn nested_zero_entry_loop_is_skipped_entirely() {
    assert_eq!(run(b"[[.].]+.", b"", BUDGET), RunOutcome::Halted(vec![1]));
}

#[test]
fn countdown_loop_runs_body_once_per_unit() {
    // The cell starts at 3; the body prints it, then counts it down.
    assert_eq!(
        run(b"+++[.-]", b"", BUDGET),
        RunOutcome::Halted(vec![3, 2, 1])
    );
}

#[test]
fn countdown_loop_takes_exactly_one_plus_two_v_steps() {
    // Three increments, then a countdown loop over a cell holding 3:
    // 3 + (1 + 2 * 3) = 10 machine steps in all.
    assert_eq!(run(b"+++[-]", b"", 10), RunOutcome::Halted(vec![]));
    assert_eq!(run(b"+++[-]", b"", 9), RunOutcome::Unfinished);
}

#[test]
fn loop_body_with_back_jump_multiplies() {
    // 4 * 3, computed in the second cell.
    assert_eq!(
        run(b"++++[>+++<-]>.", b"", BUDGET),
        RunOutcome::Halted(vec![12])
    );
}

#[test]
fn hello_world_reference_program() {
    let program = b"++++++++[>++++[>++>+++>+++>+<<<<-]>+>+>->>+[<]<-]>>.>---.+++++++..+++.>>.<-.<.+++.------.--------.>>+.>++.";
    assert_eq!(
        run(program, b"", BUDGET),
        RunOutcome::Halted(b"Hello World!\n".to_vec())
    );
}

#[test]
fn unmatched_close_with_nonzero_cell_errors() {
    assert_eq!(
        run(b"+]", b"", BUDGET),
        RunOutcome::Aborted(ErrorKind::UnmatchedLoopClose)
    );
}

#[test]
fn close_with_zero_cell_and_no_open_loop_is_quiet() {
    assert_eq!(run(b"]", b"", BUDGET), RunOutcome::Halted(vec![]));
}

#[test]
fn unterminated_loop_skip_errors() {
    assert_eq!(
        run(b"[", b"", BUDGET),
        RunOutcome::Aborted(ErrorKind::UnterminatedLoop)
    );
}

#[test]
fn entered_loop_left_open_just_halts() {
    // The scan for the matching close only happens on a zero cell.
    assert_eq!(run(b"+[", b"", BUDGET), RunOutcome::Halted(vec![]));
}

#[test]
fn cursor_below_zero_errors() {
    assert_eq!(
        run(b"<", b"", BUDGET),
        RunOutcome::Aborted(ErrorKind::PointerOutOfRange)
    );
}

#[test]
fn increment_past_tape_end_errors() {
    let mut program = repeated(b'>', 30000);
    program.push(b'+');
    assert_eq!(
        run(&program, b"", BUDGET),
        RunOutcome::Aborted(ErrorKind::PointerOutOfRange)
    );
}

#[test]
fn output_past_tape_end_errors() {
    let mut program = repeated(b'>', 30000);
    program.push(b'.');
    assert_eq!(
        run(&program, b"", BUDGET),
        RunOutcome::Aborted(ErrorKind::PointerOutOfRange)
    );
}

#[test]
fn input_past_tape_end_errors() {
    let mut program = repeated(b'>', 30000);
    program.push(b',');
    assert_eq!(
        run(&program, b"x", BUDGET),
        RunOutcome::Aborted(ErrorKind::PointerOutOfRange)
    );
}

#[test]
fn cursor_past_tape_end_without_access_is_no_error() {
    let program = repeated(b'>', 30001);
    assert_eq!(run(&program, b"", BUDGET), RunOutcome::Halted(vec![]));
}

#[test]
fn last_cell_is_usable() {
    let mut program = repeated(b'>', 29999);
    program.push(b'+');
    program.push(b'.');
    assert_eq!(run(&program, b"", BUDGET), RunOutcome::Halted(vec![1]));
}

#[test]
fn input_bytes_are_consumed_in_order() {
    assert_eq!(
        run(b",.>,.", b"AB", BUDGET),
        RunOutcome::Halted(b"AB".to_vec())
    );
}

#[test]
fn input_overwrites_the_cell() {
    assert_eq!(run(b"+++,.", b"\x07", BUDGET), RunOutcome::Halted(vec![7]));
}

#[test]
fn exhausted_input_errors() {
    assert_eq!(
        run(b",", b"", BUDGET),
        RunOutcome::Aborted(ErrorKind::InputUnavailable)
    );
}

#[test]
fn second_read_from_exhausted_input_errors() {
    assert_eq!(
        run(b",.,.", b"A", BUDGET),
        RunOutcome::Aborted(ErrorKind::InputUnavailable)
    );
}

#[test]
fn endless_loop_runs_out_of_steps() {
    assert_eq!(run(b"+[]", b"", BUDGET), RunOutcome::Unfinished);
}

#[test]
fn zero_step_budget_on_nonempty_program_is_unfinished() {
    assert_eq!(run(b"+", b"", 0), RunOutcome::Unfinished);
}
