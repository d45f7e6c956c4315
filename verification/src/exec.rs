//! The executable engine: fetch, decode, execute.

use vstd::prelude::*;
use crate::error::ErrorKind;
use crate::machine::MachineState;
use crate::machine::RunResult;
use crate::machine::StepResult;
use crate::machine::halts_with;
use crate::machine::fails_with;
use crate::machine::init_state;
use crate::machine::lemma_run_n_extend;
use crate::machine::lemma_run_n_step;
use crate::machine::outcome_error;
use crate::machine::outcome_output;
use crate::machine::run_n;
use crate::machine::step;
use crate::matcher::bracket_match;
use crate::symbol::CELL_DEC;
use crate::symbol::CELL_INC;
use crate::symbol::CURSOR_LEFT;
use crate::symbol::CURSOR_RIGHT;
use crate::symbol::INPUT;
use crate::symbol::LOOP_CLOSE;
use crate::symbol::LOOP_OPEN;
use crate::symbol::OUTPUT;
use crate::tape::TAPE_LEN;
use crate::tape::Tape;

verus! {

/// How a bounded run ended.
#[derive(Debug, PartialEq, Eq)]
pub enum RunOutcome {
    /// The instruction pointer passed the program's end; the whole output
    /// is carried here.
    Halted(Vec<u8>),
    /// A boundary violation stopped the run.
    Aborted(ErrorKind),
    /// The step budget ran out first.  The language can express runs that
    /// never end, so a verified engine must be handed a bound.
    Unfinished,
}

/// Run `program` on `input` for at most `max_steps` machine steps.
///
/// The result is exactly what the small-step specification gives the same
/// budget: the output of [`run_n`] where it halts, its error where it
/// stops, and [`RunOutcome::Unfinished`] precisely where it is still
/// running when the budget ends.
pub fn run(program: &[u8], input: &[u8], max_steps: u64) -> (r: RunOutcome)
    ensures
        ({
            let end = run_n(program@, init_state(input@), max_steps as nat);
            match r {
                RunOutcome::Halted(out) => outcome_output(end) == Some(out@) && halts_with(
                    program@,
                    input@,
                    out@,
                ),
                RunOutcome::Aborted(e) => outcome_error(end) == Some(e) && fails_with(
                    program@,
                    input@,
                    e,
                ),
                RunOutcome::Unfinished => end is Running,
            }
        }),
{
    let ghost init = init_state(input@);
    let program_len: usize = program.len();
    let input_len: usize = input.len();

    let mut tape = Tape::new();
    let mut ip: usize = 0;
    // The cursor may travel past the tape's end without an access; it
    // never exceeds the tape length by more than the instruction pointer,
    // so 128 bits cannot overflow.
    let mut dp: u128 = 0;
    let mut stack: Vec<usize> = Vec::new();
    let mut in_pos: usize = 0;
    let mut output: Vec<u8> = Vec::new();
    let mut steps: u64 = 0;

    let ghost mut gs = init;
    proof {
        assert(tape@ =~= init.tape);
        assert(stack@.map_values(|x: usize| x as nat) =~= Seq::<nat>::empty());
        assert(input@.skip(0) =~= input@);
    }

    while ip < program_len && steps < max_steps
        invariant
            init == init_state(input@),
            program_len == program@.len(),
            input_len == input@.len(),
            ip <= program_len,
            in_pos <= input_len,
            steps <= max_steps,
            gs.ip == ip as nat,
            gs.dp == dp as nat,
            gs.tape == tape@,
            tape@.len() == TAPE_LEN,
            gs.stack == stack@.map_values(|x: usize| x as nat),
            forall|k: int| 0 <= k < stack@.len() ==> (#[trigger] stack@[k]) < program_len,
            gs.input == input@.skip(in_pos as int),
            gs.output == output@,
            dp as int <= TAPE_LEN + ip as int,
            run_n(program@, init, steps as nat) == (if gs.ip < program@.len() {
                RunResult::Running(gs)
            } else {
                RunResult::Halted(gs)
            }),
        decreases max_steps - steps,
    {
        let c: u8 = program[ip];
        if c == CURSOR_RIGHT {
            dp = dp + 1;
            ip = ip + 1;
            proof {
                let gs2 = MachineState { ip: gs.ip + 1, dp: gs.dp + 1, ..gs };
                assert(step(program@, gs) == StepResult::Next(gs2));
                lemma_run_n_step(program@, init, gs, steps as nat);
                gs = gs2;
            }
        } else if c == CURSOR_LEFT {
            if dp == 0 {
                proof {
                    assert(step(program@, gs) == StepResult::Abort(ErrorKind::PointerOutOfRange));
                    lemma_run_n_step(program@, init, gs, steps as nat);
                    lemma_run_n_extend(program@, init, steps as nat + 1, max_steps as nat);
                    assert(outcome_error(run_n(program@, init, max_steps as nat)) == Some(
                        ErrorKind::PointerOutOfRange,
                    ));
                }
                return RunOutcome::Aborted(ErrorKind::PointerOutOfRange);
            }
            dp = dp - 1;
            ip = ip + 1;
            proof {
                let gs2 = MachineState { ip: gs.ip + 1, dp: (gs.dp - 1) as nat, ..gs };
                assert(step(program@, gs) == StepResult::Next(gs2));
                lemma_run_n_step(program@, init, gs, steps as nat);
                gs = gs2;
            }
        } else if c == CELL_INC || c == CELL_DEC || c == LOOP_OPEN || c == LOOP_CLOSE || c == INPUT
            || c == OUTPUT {
            // Every one of these reads or writes the cell under the cursor.
            if dp >= TAPE_LEN as u128 {
                proof {
                    assert(step(program@, gs) == StepResult::Abort(ErrorKind::PointerOutOfRange));
                    lemma_run_n_step(program@, init, gs, steps as nat);
                    lemma_run_n_extend(program@, init, steps as nat + 1, max_steps as nat);
                    assert(outcome_error(run_n(program@, init, max_steps as nat)) == Some(
                        ErrorKind::PointerOutOfRange,
                    ));
                }
                return RunOutcome::Aborted(ErrorKind::PointerOutOfRange);
            }
            let d: usize = dp as usize;
            if c == CELL_INC {
                tape.increment(d);
                ip = ip + 1;
                proof {
                    let gs2 = MachineState { ip: gs.ip + 1, tape: tape@, ..gs };
                    assert(step(program@, gs) == StepResult::Next(gs2));
                    lemma_run_n_step(program@, init, gs, steps as nat);
                    gs = gs2;
                }
            } else if c == CELL_DEC {
                tape.decrement(d);
                ip = ip + 1;
                proof {
                    let gs2 = MachineState { ip: gs.ip + 1, tape: tape@, ..gs };
                    assert(step(program@, gs) == StepResult::Next(gs2));
                    lemma_run_n_step(program@, init, gs, steps as nat);
                    gs = gs2;
                }
            } else if c == LOOP_OPEN {
                if tape.read(d) == 0 {
                    match bracket_match(ip, program) {
                        Ok(j) => {
                            ip = j + 1;
                            proof {
                                let gs2 = MachineState { ip: (j + 1) as nat, ..gs };
                                assert(step(program@, gs) == StepResult::Next(gs2));
                                lemma_run_n_step(program@, init, gs, steps as nat);
                                gs = gs2;
                            }
                        },
                        Err(e) => {
                            proof {
                                assert(step(program@, gs) == StepResult::Abort(
                                    ErrorKind::UnterminatedLoop,
                                ));
                                lemma_run_n_step(program@, init, gs, steps as nat);
                                lemma_run_n_extend(
                                    program@,
                                    init,
                                    steps as nat + 1,
                                    max_steps as nat,
                                );
                                assert(outcome_error(run_n(program@, init, max_steps as nat))
                                    == Some(ErrorKind::UnterminatedLoop));
                            }
                            return RunOutcome::Aborted(e);
                        },
                    }
                } else {
                    stack.push(ip);
                    ip = ip + 1;
                    proof {
                        let gs2 = MachineState {
                            ip: gs.ip + 1,
                            stack: gs.stack.push(gs.ip),
                            ..gs
                        };
                        assert(stack@.map_values(|x: usize| x as nat) =~= gs.stack.push(gs.ip));
                        assert(step(program@, gs) == StepResult::Next(gs2));
                        lemma_run_n_step(program@, init, gs, steps as nat);
                        gs = gs2;
                    }
                }
            } else if c == LOOP_CLOSE {
                if tape.read(d) == 0 {
                    if stack.len() > 0 {
                        let _ = stack.pop();
                    }
                    ip = ip + 1;
                    proof {
                        let gs2 = MachineState {
                            ip: gs.ip + 1,
                            stack: stack@.map_values(|x: usize| x as nat),
                            ..gs
                        };
                        if gs.stack.len() > 0 {
                            assert(stack@.map_values(|x: usize| x as nat)
                                =~= gs.stack.drop_last());
                        }
                        assert(step(program@, gs) == StepResult::Next(gs2));
                        lemma_run_n_step(program@, init, gs, steps as nat);
                        gs = gs2;
                    }
                } else {
                    if stack.len() == 0 {
                        proof {
                            assert(step(program@, gs) == StepResult::Abort(
                                ErrorKind::UnmatchedLoopClose,
                            ));
                            lemma_run_n_step(program@, init, gs, steps as nat);
                            lemma_run_n_extend(program@, init, steps as nat + 1, max_steps as nat);
                            assert(outcome_error(run_n(program@, init, max_steps as nat)) == Some(
                                ErrorKind::UnmatchedLoopClose,
                            ));
                        }
                        return RunOutcome::Aborted(ErrorKind::UnmatchedLoopClose);
                    }
                    let top: usize = stack[stack.len() - 1];
                    ip = top + 1;
                    proof {
                        assert(gs.stack.last() == top as nat);
                        let gs2 = MachineState { ip: gs.stack.last() + 1, ..gs };
                        assert(step(program@, gs) == StepResult::Next(gs2));
                        lemma_run_n_step(program@, init, gs, steps as nat);
                        gs = gs2;
                    }
                }
            } else if c == INPUT {
                if in_pos >= input_len {
                    proof {
                        assert(gs.input.len() == 0);
                        assert(step(program@, gs) == StepResult::Abort(
                            ErrorKind::InputUnavailable,
                        ));
                        lemma_run_n_step(program@, init, gs, steps as nat);
                        lemma_run_n_extend(program@, init, steps as nat + 1, max_steps as nat);
                        assert(outcome_error(run_n(program@, init, max_steps as nat)) == Some(
                            ErrorKind::InputUnavailable,
                        ));
                    }
                    return RunOutcome::Aborted(ErrorKind::InputUnavailable);
                }
                let b: u8 = input[in_pos];
                in_pos = in_pos + 1;
                tape.write(d, b);
                ip = ip + 1;
                proof {
                    assert(gs.input[0] == b);
                    let gs2 = MachineState {
                        ip: gs.ip + 1,
                        tape: tape@,
                        input: gs.input.drop_first(),
                        ..gs
                    };
                    assert(gs.input.drop_first() =~= input@.skip(in_pos as int));
                    assert(step(program@, gs) == StepResult::Next(gs2));
                    lemma_run_n_step(program@, init, gs, steps as nat);
                    gs = gs2;
                }
            } else {
                let b: u8 = tape.read(d);
                output.push(b);
                ip = ip + 1;
                proof {
                    let gs2 = MachineState { ip: gs.ip + 1, output: output@, ..gs };
                    assert(step(program@, gs) == StepResult::Next(gs2));
                    lemma_run_n_step(program@, init, gs, steps as nat);
                    gs = gs2;
                }
            }
        } else {
            // A comment character: no effect beyond moving on.
            ip = ip + 1;
            proof {
                let gs2 = MachineState { ip: gs.ip + 1, ..gs };
                assert(step(program@, gs) == StepResult::Next(gs2));
                lemma_run_n_step(program@, init, gs, steps as nat);
                gs = gs2;
            }
        }
        steps = steps + 1;
    }
    if ip >= program_len {
        proof {
            lemma_run_n_extend(program@, init, steps as nat, max_steps as nat);
            assert(outcome_output(run_n(program@, init, max_steps as nat)) == Some(output@));
        }
        RunOutcome::Halted(output)
    } else {
        RunOutcome::Unfinished
    }
}

} // verus!
