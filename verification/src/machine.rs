//! The small-step specification of the machine.
//!
//! A [`MachineState`] holds everything a run owns: the instruction pointer,
//! the cursor, the tape, the stack of open loops, the input still to be
//! read and the output written so far.  [`step`] gives the effect of the
//! one instruction under the instruction pointer, [`run_n`] iterates it for
//! a bounded number of steps, and [`halts_with`] / [`fails_with`] say what
//! a whole run of a program comes to.  The executable engine in
//! [`crate::exec`] is proved to follow this specification step for step.

use vstd::prelude::*;
use crate::error::ErrorKind;
use crate::matcher::find_close;
use crate::symbol::CELL_DEC;
use crate::symbol::CELL_INC;
use crate::symbol::CURSOR_LEFT;
use crate::symbol::CURSOR_RIGHT;
use crate::symbol::INPUT;
use crate::symbol::LOOP_CLOSE;
use crate::symbol::LOOP_OPEN;
use crate::symbol::is_instruction;
use crate::tape::TAPE_LEN;
use crate::tape::dec_byte;
use crate::tape::inc_byte;

verus! {

/// One configuration of the machine during a run.
#[verifier::ext_equal]
pub struct MachineState {
    /// Index into the program of the next instruction.
    pub ip: nat,
    /// Index into the tape of the current cell.  Moving right past the
    /// tape's end is not itself an error, so the cursor can stand beyond
    /// it; only an access from out there fails.
    pub dp: nat,
    /// The cells.
    pub tape: Seq<u8>,
    /// Positions of the loop-opens whose bodies are running, innermost
    /// last.
    pub stack: Seq<nat>,
    /// Input bytes not yet consumed.
    pub input: Seq<u8>,
    /// Output bytes written so far.
    pub output: Seq<u8>,
}

/// What one step comes to: the next configuration, or the error that
/// stopped the run.
pub enum StepResult {
    Next(MachineState),
    Abort(ErrorKind),
}

/// Where a bounded run stands: still going, halted in a final
/// configuration, or stopped by an error.
pub enum RunResult {
    Running(MachineState),
    Halted(MachineState),
    Aborted(ErrorKind),
}

/// The configuration a run starts from: both pointers at zero, a zeroed
/// tape, no open loops, all of `input` ahead, nothing written.
pub open spec fn init_state(input: Seq<u8>) -> MachineState {
    MachineState {
        ip: 0,
        dp: 0,
        tape: Seq::new(TAPE_LEN as nat, |i: int| 0u8),
        stack: Seq::empty(),
        input,
        output: Seq::empty(),
    }
}

/// The effect of the one instruction at `s.ip`.  Meaningful while the
/// instruction pointer is inside the program; the instruction pointer
/// moves on by one afterwards, which a loop-close's back-jump counts on:
/// it lands on the loop-open itself so that moving on re-tests the cell.
pub open spec fn step(prog: Seq<u8>, s: MachineState) -> StepResult
    recommends
        s.ip < prog.len(),
{
    let c = prog[s.ip as int];
    if c == CURSOR_RIGHT {
        StepResult::Next(MachineState { ip: s.ip + 1, dp: s.dp + 1, ..s })
    } else if c == CURSOR_LEFT {
        if s.dp == 0 {
            StepResult::Abort(ErrorKind::PointerOutOfRange)
        } else {
            StepResult::Next(MachineState { ip: s.ip + 1, dp: (s.dp - 1) as nat, ..s })
        }
    } else if !is_instruction(c) {
        StepResult::Next(MachineState { ip: s.ip + 1, ..s })
    } else if s.dp >= s.tape.len() {
        // Every remaining instruction reads or writes the current cell.
        StepResult::Abort(ErrorKind::PointerOutOfRange)
    } else if c == CELL_INC {
        StepResult::Next(
            MachineState {
                ip: s.ip + 1,
                tape: s.tape.update(s.dp as int, inc_byte(s.tape[s.dp as int])),
                ..s
            },
        )
    } else if c == CELL_DEC {
        StepResult::Next(
            MachineState {
                ip: s.ip + 1,
                tape: s.tape.update(s.dp as int, dec_byte(s.tape[s.dp as int])),
                ..s
            },
        )
    } else if c == LOOP_OPEN {
        if s.tape[s.dp as int] == 0 {
            match find_close(prog, s.ip + 1 as int, 1) {
                Some(j) => StepResult::Next(MachineState { ip: (j + 1) as nat, ..s }),
                None => StepResult::Abort(ErrorKind::UnterminatedLoop),
            }
        } else {
            StepResult::Next(MachineState { ip: s.ip + 1, stack: s.stack.push(s.ip), ..s })
        }
    } else if c == LOOP_CLOSE {
        if s.tape[s.dp as int] == 0 {
            let popped = if s.stack.len() > 0 {
                s.stack.drop_last()
            } else {
                s.stack
            };
            StepResult::Next(MachineState { ip: s.ip + 1, stack: popped, ..s })
        } else if s.stack.len() == 0 {
            StepResult::Abort(ErrorKind::UnmatchedLoopClose)
        } else {
            StepResult::Next(MachineState { ip: s.stack.last() + 1, ..s })
        }
    } else if c == INPUT {
        if s.input.len() == 0 {
            StepResult::Abort(ErrorKind::InputUnavailable)
        } else {
            StepResult::Next(
                MachineState {
                    ip: s.ip + 1,
                    tape: s.tape.update(s.dp as int, s.input[0]),
                    input: s.input.drop_first(),
                    ..s
                },
            )
        }
    } else {
        // c == OUTPUT
        StepResult::Next(
            MachineState { ip: s.ip + 1, output: s.output.push(s.tape[s.dp as int]), ..s },
        )
    }
}

/// Run the machine from `s` for at most `n` steps: halted the moment the
/// instruction pointer passes the program's end, stopped at the first
/// error, still running when the budget ends first.
pub open spec fn run_n(prog: Seq<u8>, s: MachineState, n: nat) -> RunResult
    decreases n,
{
    if s.ip >= prog.len() {
        RunResult::Halted(s)
    } else if n == 0 {
        RunResult::Running(s)
    } else {
        match step(prog, s) {
            StepResult::Next(s2) => run_n(prog, s2, (n - 1) as nat),
            StepResult::Abort(e) => RunResult::Aborted(e),
        }
    }
}

/// The output of a bounded run that has halted, if it has.
pub open spec fn outcome_output(r: RunResult) -> Option<Seq<u8>> {
    match r {
        RunResult::Halted(s) => Some(s.output),
        _ => None,
    }
}

/// The error of a bounded run that has stopped, if it has.
pub open spec fn outcome_error(r: RunResult) -> Option<ErrorKind> {
    match r {
        RunResult::Aborted(e) => Some(e),
        _ => None,
    }
}

/// The program, run on `input`, halts and its whole output is `output`.
pub open spec fn halts_with(prog: Seq<u8>, input: Seq<u8>, output: Seq<u8>) -> bool {
    exists|n: nat| outcome_output(#[trigger] run_n(prog, init_state(input), n)) == Some(output)
}

/// The program, run on `input`, stops at the error `e`.
pub open spec fn fails_with(prog: Seq<u8>, input: Seq<u8>, e: ErrorKind) -> bool {
    exists|n: nat| outcome_error(#[trigger] run_n(prog, init_state(input), n)) == Some(e)
}

/// Extending a still-running bounded run by one step applies `step` to
/// where it stands.
pub proof fn lemma_run_n_step(prog: Seq<u8>, s0: MachineState, s1: MachineState, n: nat)
    requires
        run_n(prog, s0, n) == RunResult::Running(s1),
    ensures
        run_n(prog, s0, n + 1) == (match step(prog, s1) {
            StepResult::Next(s2) => run_n(prog, s2, 0),
            StepResult::Abort(e) => RunResult::Aborted(e),
        }),
    decreases n,
{
    if s0.ip >= prog.len() {
        assert(false);
    } else if n == 0 {
        assert(run_n(prog, s0, 1) == (match step(prog, s0) {
            StepResult::Next(s2) => run_n(prog, s2, 0),
            StepResult::Abort(e) => RunResult::Aborted(e),
        }));
    } else {
        match step(prog, s0) {
            StepResult::Next(s2) => {
                lemma_run_n_step(prog, s2, s1, (n - 1) as nat);
            },
            StepResult::Abort(_) => {
                assert(false);
            },
        }
    }
}

/// A bounded run that has halted or stopped stays exactly there under any
/// larger budget.
pub proof fn lemma_run_n_extend(prog: Seq<u8>, s: MachineState, n: nat, m: nat)
    requires
        n <= m,
        !(run_n(prog, s, n) is Running),
    ensures
        run_n(prog, s, m) == run_n(prog, s, n),
    decreases n,
{
    if s.ip >= prog.len() {
    } else {
        // n == 0 would leave the run Running, against the premise.
        match step(prog, s) {
            StepResult::Next(s2) => {
                lemma_run_n_extend(prog, s2, (n - 1) as nat, (m - 1) as nat);
            },
            StepResult::Abort(_) => {},
        }
    }
}

/// The machine is deterministic: a program on a given input has at most
/// one outcome — one possible whole output, never both an output and an
/// error, and at most one error.
pub proof fn lemma_outcome_unique(prog: Seq<u8>, input: Seq<u8>)
    ensures
        forall|o1: Seq<u8>, o2: Seq<u8>|
            halts_with(prog, input, o1) && halts_with(prog, input, o2) ==> o1 == o2,
        forall|o: Seq<u8>, e: ErrorKind| !(halts_with(prog, input, o) && fails_with(prog, input, e)),
        forall|e1: ErrorKind, e2: ErrorKind|
            fails_with(prog, input, e1) && fails_with(prog, input, e2) ==> e1 == e2,
{
    let s0 = init_state(input);
    assert forall|o1: Seq<u8>, o2: Seq<u8>|
        halts_with(prog, input, o1) && halts_with(prog, input, o2) implies o1 == o2 by {
        let n1 = choose|n: nat| outcome_output(#[trigger] run_n(prog, s0, n)) == Some(o1);
        let n2 = choose|n: nat| outcome_output(#[trigger] run_n(prog, s0, n)) == Some(o2);
        if n1 <= n2 {
            lemma_run_n_extend(prog, s0, n1, n2);
        } else {
            lemma_run_n_extend(prog, s0, n2, n1);
        }
    }
    assert forall|o: Seq<u8>, e: ErrorKind|
        !(halts_with(prog, input, o) && fails_with(prog, input, e)) by {
        if halts_with(prog, input, o) && fails_with(prog, input, e) {
            let n1 = choose|n: nat| outcome_output(#[trigger] run_n(prog, s0, n)) == Some(o);
            let n2 = choose|n: nat| outcome_error(#[trigger] run_n(prog, s0, n)) == Some(e);
            if n1 <= n2 {
                lemma_run_n_extend(prog, s0, n1, n2);
            } else {
                lemma_run_n_extend(prog, s0, n2, n1);
            }
        }
    }
    assert forall|e1: ErrorKind, e2: ErrorKind|
        fails_with(prog, input, e1) && fails_with(prog, input, e2) implies e1 == e2 by {
        let n1 = choose|n: nat| outcome_error(#[trigger] run_n(prog, s0, n)) == Some(e1);
        let n2 = choose|n: nat| outcome_error(#[trigger] run_n(prog, s0, n)) == Some(e2);
        if n1 <= n2 {
            lemma_run_n_extend(prog, s0, n1, n2);
        } else {
            lemma_run_n_extend(prog, s0, n2, n1);
        }
    }
}

} // verus!
