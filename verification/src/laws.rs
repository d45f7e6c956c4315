//! Laws of the machine, proved against the small-step specification.

use vstd::prelude::*;
use crate::error::ErrorKind;
use crate::machine::MachineState;
use crate::machine::RunResult;
use crate::machine::StepResult;
use crate::machine::halts_with;
use crate::machine::fails_with;
use crate::machine::init_state;
use crate::machine::lemma_outcome_unique;
use crate::machine::outcome_output;
use crate::machine::run_n;
use crate::machine::step;
use crate::matcher::find_close;
use crate::symbol::CELL_DEC;
use crate::symbol::CURSOR_LEFT;
use crate::symbol::LOOP_CLOSE;
use crate::symbol::LOOP_OPEN;
use crate::symbol::accesses_cell;
use crate::symbol::is_instruction;
use crate::tape::dec_byte;

verus! {

proof fn lemma_noop_run_from(prog: Seq<u8>, s: MachineState)
    requires
        forall|i: int| 0 <= i < prog.len() ==> !is_instruction(#[trigger] prog[i]),
        s.ip <= prog.len(),
    ensures
        run_n(prog, s, (prog.len() - s.ip) as nat) == RunResult::Halted(
            MachineState { ip: prog.len(), ..s },
        ),
    decreases prog.len() - s.ip,
{
    if s.ip >= prog.len() {
        assert(s == MachineState { ip: prog.len(), ..s });
    } else {
        assert(!is_instruction(prog[s.ip as int]));
        lemma_noop_run_from(prog, MachineState { ip: s.ip + 1, ..s });
    }
}

/// Law: a program made only of symbols outside the instruction set leaves
/// no trace — it halts, its output is empty, and no error is reachable.
pub proof fn lemma_noop_program(prog: Seq<u8>, input: Seq<u8>)
    requires
        forall|i: int| 0 <= i < prog.len() ==> !is_instruction(#[trigger] prog[i]),
    ensures
        halts_with(prog, input, Seq::empty()),
        forall|o: Seq<u8>| halts_with(prog, input, o) ==> o == Seq::<u8>::empty(),
        forall|e: ErrorKind| !fails_with(prog, input, e),
{
    lemma_noop_run_from(prog, init_state(input));
    assert(outcome_output(run_n(prog, init_state(input), prog.len())) == Some(
        Seq::<u8>::empty(),
    ));
    lemma_outcome_unique(prog, input);
    assert forall|o: Seq<u8>| halts_with(prog, input, o) implies o == Seq::<u8>::empty() by {
        assert(halts_with(prog, input, Seq::empty()));
    }
    assert forall|e: ErrorKind| !fails_with(prog, input, e) by {
        assert(halts_with(prog, input, Seq::empty()));
    }
}

/// Law: a loop whose cell is zero on entry never executes its body — the
/// one step at the loop-open jumps just past the matching close, and the
/// tape, cursor, stack, input and output all stand as they were.
pub proof fn lemma_zero_loop_skipped(prog: Seq<u8>, s: MachineState, j: int)
    requires
        s.ip < prog.len(),
        prog[s.ip as int] == LOOP_OPEN,
        s.dp < s.tape.len(),
        s.tape[s.dp as int] == 0,
        find_close(prog, s.ip + 1 as int, 1) == Some(j),
    ensures
        step(prog, s) == StepResult::Next(MachineState { ip: (j + 1) as nat, ..s }),
{
}

proof fn lemma_countdown_body(s: MachineState, w: u8)
    requires
        s.ip == 1,
        s.dp < s.tape.len(),
        s.tape[s.dp as int] == w,
        w >= 1,
        s.stack.len() >= 1,
        s.stack.last() == 0,
    ensures
        ({
            let prog = seq![LOOP_OPEN, CELL_DEC, LOOP_CLOSE];
            run_n(prog, s, (2 * w) as nat) == RunResult::Halted(
                MachineState {
                    ip: 3,
                    tape: s.tape.update(s.dp as int, 0u8),
                    stack: s.stack.drop_last(),
                    ..s
                },
            )
        }),
    decreases w,
{
    let prog = seq![LOOP_OPEN, CELL_DEC, LOOP_CLOSE];
    let s2 = MachineState {
        ip: 2,
        tape: s.tape.update(s.dp as int, dec_byte(w)),
        ..s
    };
    assert(step(prog, s) == StepResult::Next(s2));
    assert(run_n(prog, s, (2 * w) as nat) == run_n(prog, s2, (2 * w - 1) as nat));
    if w == 1 {
        let s3 = MachineState { ip: 3, stack: s.stack.drop_last(), ..s2 };
        assert(dec_byte(1) == 0);
        assert(step(prog, s2) == StepResult::Next(s3));
        assert(run_n(prog, s2, 1) == run_n(prog, s3, 0));
        assert(s2.tape == s.tape.update(s.dp as int, 0u8));
    } else {
        let s3 = MachineState { ip: 1, ..s2 };
        assert(dec_byte(w) == w - 1);
        assert(step(prog, s2) == StepResult::Next(s3));
        assert(run_n(prog, s2, (2 * w - 1) as nat) == run_n(prog, s3, (2 * w - 2) as nat));
        lemma_countdown_body(s3, (w - 1) as u8);
        assert(s3.tape.update(s.dp as int, 0u8) =~= s.tape.update(s.dp as int, 0u8));
        assert(2 * (w - 1) == 2 * w - 2);
    }
}

/// Law: a loop that counts its cell down to zero runs its body once per
/// unit of the cell's starting value.  On the program `[-]`, a current
/// cell holding `v` reaches zero and the run halts in exactly `1 + 2 * v`
/// steps — the loop-open once, then the one-instruction body and the
/// loop-close `v` times each — with stack, input and output untouched.
pub proof fn lemma_countdown_loop(s: MachineState, v: u8)
    requires
        s.ip == 0,
        s.dp < s.tape.len(),
        s.tape[s.dp as int] == v,
    ensures
        ({
            let prog = seq![LOOP_OPEN, CELL_DEC, LOOP_CLOSE];
            run_n(prog, s, (1 + 2 * v) as nat) == RunResult::Halted(
                MachineState { ip: 3, tape: s.tape.update(s.dp as int, 0u8), ..s },
            )
        }),
{
    let prog = seq![LOOP_OPEN, CELL_DEC, LOOP_CLOSE];
    if v == 0 {
        assert(find_close(prog, 1, 1) == Some(2int));
        let s2 = MachineState { ip: 3, ..s };
        assert(step(prog, s) == StepResult::Next(s2));
        assert(run_n(prog, s, 1) == run_n(prog, s2, 0));
        assert(s.tape.update(s.dp as int, 0u8) =~= s.tape);
    } else {
        let s1 = MachineState { ip: 1, stack: s.stack.push(0), ..s };
        assert(step(prog, s) == StepResult::Next(s1));
        assert(run_n(prog, s, (1 + 2 * v) as nat) == run_n(prog, s1, (2 * v) as nat));
        lemma_countdown_body(s1, v);
        assert(s1.stack.drop_last() =~= s.stack);
    }
}

/// Law: a loop-close reached with a non-zero current cell and no open
/// loop recorded stops the run with the unmatched-close error — never a
/// silent no-op.
pub proof fn lemma_unmatched_close(prog: Seq<u8>, s: MachineState)
    requires
        s.ip < prog.len(),
        prog[s.ip as int] == LOOP_CLOSE,
        s.dp < s.tape.len(),
        s.tape[s.dp as int] != 0,
        s.stack.len() == 0,
    ensures
        step(prog, s) == StepResult::Abort(ErrorKind::UnmatchedLoopClose),
{
}

/// Law: moving the cursor below zero, or reaching for a cell at or past
/// the tape's end with any instruction that touches the current cell,
/// stops the run with the pointer-out-of-range error.
pub proof fn lemma_pointer_out_of_range(prog: Seq<u8>, s: MachineState)
    requires
        s.ip < prog.len(),
        (prog[s.ip as int] == CURSOR_LEFT && s.dp == 0) || (accesses_cell(prog[s.ip as int])
            && s.dp >= s.tape.len()),
    ensures
        step(prog, s) == StepResult::Abort(ErrorKind::PointerOutOfRange),
{
}

} // verus!
