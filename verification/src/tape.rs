//! The machine's memory: a fixed-size array of byte cells.

use vstd::prelude::*;
use vstd::arithmetic::div_mod::lemma_add_mod_noop;
use vstd::arithmetic::div_mod::lemma_small_mod;

verus! {

/// Number of cells on the tape.  Fixed for the lifetime of a run; the
/// language has no way to grow its memory.
pub const TAPE_LEN: usize = 30000;

/// One increment with wrap-around: 255 steps back to 0.
pub open spec fn inc_byte(b: u8) -> u8 {
    (((b as int) + 1) % 256) as u8
}

/// One decrement with wrap-around: 0 steps up to 255.
pub open spec fn dec_byte(b: u8) -> u8 {
    (((b as int) + 255) % 256) as u8
}

/// `n` increments in a row, starting from `b`.
pub open spec fn iter_inc(b: u8, n: nat) -> u8
    decreases n,
{
    if n == 0 {
        b
    } else {
        inc_byte(iter_inc(b, (n - 1) as nat))
    }
}

proof fn lemma_iter_inc_value(b: u8, n: nat)
    ensures
        iter_inc(b, n) == (((b as int) + n) % 256) as u8,
    decreases n,
{
    if n == 0 {
        lemma_small_mod(b as nat, 256);
    } else {
        lemma_iter_inc_value(b, (n - 1) as nat);
        lemma_add_mod_noop((b as int) + n - 1, 1, 256);
        lemma_small_mod(1, 256);
    }
}

/// Law: cell arithmetic is modulo 256.  256 increments in a row return a
/// cell to its original value, and one decrement of a zero cell gives 255.
pub proof fn lemma_cell_arithmetic_wraps(b: u8)
    ensures
        iter_inc(b, 256) == b,
        dec_byte(0) == 255u8,
{
    lemma_iter_inc_value(b, 256);
    lemma_add_mod_noop(b as int, 256, 256);
    lemma_small_mod(b as nat, 256);
}

/// Fixed-length array of `TAPE_LEN` unsigned byte cells, all zero at
/// creation.  Cells change only through the wrapping increment and
/// decrement or a direct write; the tape is never resized.
pub struct Tape {
    cells: Vec<u8>,
}

impl View for Tape {
    type V = Seq<u8>;

    closed spec fn view(&self) -> Seq<u8> {
        self.cells@
    }
}

impl Tape {
    /// A fresh tape: `TAPE_LEN` cells, every one zero.
    pub fn new() -> (t: Tape)
        ensures
            t@.len() == TAPE_LEN,
            forall|i: int| 0 <= i < TAPE_LEN ==> t@[i] == 0u8,
    {
        let mut cells: Vec<u8> = Vec::new();
        let mut i: usize = 0;
        while i < TAPE_LEN
            invariant
                i <= TAPE_LEN,
                cells@.len() == i,
                forall|k: int| 0 <= k < i ==> cells@[k] == 0u8,
            decreases TAPE_LEN - i,
        {
            cells.push(0u8);
            i = i + 1;
        }
        Tape { cells }
    }

    /// The byte held by the cell at `i`.
    pub fn read(&self, i: usize) -> (b: u8)
        requires
            i < self@.len(),
        ensures
            b == self@[i as int],
    {
        self.cells[i]
    }

    /// Overwrite the cell at `i` with `b`.
    pub fn write(&mut self, i: usize, b: u8)
        requires
            i < old(self)@.len(),
        ensures
            final(self)@ == old(self)@.update(i as int, b),
    {
        self.cells.set(i, b);
    }

    /// Add one to the cell at `i`, wrapping 255 back to 0.
    pub fn increment(&mut self, i: usize)
        requires
            i < old(self)@.len(),
        ensures
            final(self)@ == old(self)@.update(i as int, inc_byte(old(self)@[i as int])),
    {
        let c: u8 = self.cells[i];
        let c2: u8 = if c == 255 { 0 } else { c + 1 };
        self.cells.set(i, c2);
    }

    /// Take one from the cell at `i`, wrapping 0 up to 255.
    pub fn decrement(&mut self, i: usize)
        requires
            i < old(self)@.len(),
        ensures
            final(self)@ == old(self)@.update(i as int, dec_byte(old(self)@[i as int])),
    {
        let c: u8 = self.cells[i];
        let c2: u8 = if c == 0 { 255 } else { c - 1 };
        self.cells.set(i, c2);
    }
}

} // verus!
