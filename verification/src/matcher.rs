//! Finding the loop-close that matches a loop-open.

use vstd::prelude::*;
use crate::error::ErrorKind;
use crate::symbol::LOOP_CLOSE;
use crate::symbol::LOOP_OPEN;

verus! {

/// Position of the loop-close symbol that balances `depth` loop-opens,
/// scanning `prog` from position `i` onward; `None` when the program ends
/// before the depth returns to zero.
pub open spec fn find_close(prog: Seq<u8>, i: int, depth: int) -> Option<int>
    decreases prog.len() - i,
{
    if i < 0 || i >= prog.len() {
        None
    } else if prog[i] == LOOP_CLOSE {
        if depth == 1 {
            Some(i)
        } else {
            find_close(prog, i + 1, depth - 1)
        }
    } else if prog[i] == LOOP_OPEN {
        find_close(prog, i + 1, depth + 1)
    } else {
        find_close(prog, i + 1, depth)
    }
}

/// Forward scan for the loop-close matching the loop-open at
/// `open_pointer`: starting one past it with a depth of one, each loop-open
/// deepens and each loop-close shallows, and the scan stops where the depth
/// reaches zero.  Reaching the end of `commands` first is the unterminated
/// loop error.
pub fn bracket_match(open_pointer: usize, commands: &[u8]) -> (r: Result<usize, ErrorKind>)
    requires
        open_pointer < commands@.len(),
    ensures
        match r {
            Ok(j) => {
                &&& find_close(commands@, open_pointer + 1, 1) == Some(j as int)
                &&& open_pointer < j < commands@.len()
                &&& commands@[j as int] == LOOP_CLOSE
            },
            Err(e) => {
                &&& e == ErrorKind::UnterminatedLoop
                &&& find_close(commands@, open_pointer + 1, 1) is None
            },
        },
{
    let n: usize = commands.len();
    let mut i: usize = open_pointer + 1;
    let mut depth: usize = 1;
    while i < n
        invariant
            n == commands@.len(),
            open_pointer < i <= commands@.len(),
            1 <= depth <= i,
            find_close(commands@, open_pointer + 1, 1) == find_close(
                commands@,
                i as int,
                depth as int,
            ),
        decreases commands@.len() - i,
    {
        let c: u8 = commands[i];
        if c == LOOP_CLOSE {
            if depth == 1 {
                return Ok(i);
            }
            depth = depth - 1;
        } else if c == LOOP_OPEN {
            depth = depth + 1;
        }
        i = i + 1;
    }
    Err(ErrorKind::UnterminatedLoop)
}

} // verus!
