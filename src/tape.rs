use vstd::prelude::*;
use vstd::arithmetic::div_mod::lemma_small_mod;

verus! {

/// A fixed-length ring of byte cells with one movable cursor.
///
/// Cell arithmetic wraps modulo 256, and cursor motion wraps around the
/// ends of the ring.
pub struct Tape {
    cells: Vec<u8>,
    cursor: usize,
}

impl Tape {
    /// The contents of the tape, cell by cell.
    pub closed spec fn cells(&self) -> Seq<u8> {
        self.cells@
    }

    /// The index of the cell under the cursor.
    pub closed spec fn cursor(&self) -> int {
        self.cursor as int
    }

    /// The tape has at least one cell and the cursor points into it.
    pub open spec fn wf(&self) -> bool {
        &&& self.cells().len() > 0
        &&& 0 <= self.cursor() < self.cells().len()
    }

    /// The value under the cursor.
    pub open spec fn current(&self) -> u8 {
        self.cells()[self.cursor()]
    }

    /// A tape of `len` cells, all zero, with the cursor on the first.
    pub fn new(len: usize) -> (r: Tape)
        requires
            len > 0,
        ensures
            r.wf(),
            r.cells() == Seq::new(len as nat, |i: int| 0u8),
            r.cursor() == 0,
    {
        let cells = vec![0u8; len];
        proof {
            assert(cells@ =~= Seq::new(len as nat, |i: int| 0u8));
        }
        Tape { cells, cursor: 0 }
    }

    /// The number of cells.
    pub fn len(&self) -> (r: usize)
        ensures
            r as int == self.cells().len(),
    {
        self.cells.len()
    }

    /// The index of the cell under the cursor.
    pub fn position(&self) -> (r: usize)
        ensures
            r as int == self.cursor(),
    {
        self.cursor
    }

    /// The value of the cell at index `i`.
    pub fn cell(&self, i: usize) -> (r: u8)
        requires
            i < self.cells().len(),
        ensures
            r == self.cells()[i as int],
    {
        self.cells[i]
    }

    /// The value under the cursor.
    pub fn get(&self) -> (r: u8)
        requires
            self.wf(),
        ensures
            r == self.current(),
    {
        self.cells[self.cursor]
    }

    /// Overwrites the value under the cursor.
    pub fn set(&mut self, value: u8)
        requires
            old(self).wf(),
        ensures
            final(self).wf(),
            final(self).cells() == old(self).cells().update(old(self).cursor(), value),
            final(self).cursor() == old(self).cursor(),
    {
        let i = self.cursor;
        self.cells.set(i, value);
    }

    /// Adds one to the value under the cursor, wrapping 255 round to 0.
    pub fn inc(&mut self)
        requires
            old(self).wf(),
        ensures
            final(self).wf(),
            final(self).cells() == old(self).cells().update(
                old(self).cursor(),
                ((old(self).current() + 1) % 256) as u8,
            ),
            final(self).cursor() == old(self).cursor(),
            old(self).current() == 255 ==> final(self).current() == 0,
    {
        let v = self.get();
        self.set(v.wrapping_add(1));
    }

    /// Subtracts one from the value under the cursor, wrapping 0 round to 255.
    pub fn dec(&mut self)
        requires
            old(self).wf(),
        ensures
            final(self).wf(),
            final(self).cells() == old(self).cells().update(
                old(self).cursor(),
                ((old(self).current() + 255) % 256) as u8,
            ),
            final(self).cursor() == old(self).cursor(),
            old(self).current() == 0 ==> final(self).current() == 255,
    {
        let v = self.get();
        self.set(v.wrapping_sub(1));
    }

    /// Moves the cursor one cell forward; from the last cell it goes to the first.
    pub fn ptr_inc(&mut self)
        requires
            old(self).wf(),
        ensures
            final(self).wf(),
            final(self).cells() == old(self).cells(),
            final(self).cursor() == (old(self).cursor() + 1) % (old(self).cells().len() as int),
            old(self).cursor() == old(self).cells().len() - 1 ==> final(self).cursor() == 0,
    {
        let n = self.cells.len();
        if self.cursor == n - 1 {
            self.cursor = 0;
            assert(n as int % n as int == 0) by (nonlinear_arith)
                requires n > 0;
        } else {
            self.cursor = self.cursor + 1;
            proof {
                lemma_small_mod(self.cursor as nat, n as nat);
            }
        }
    }

    /// Moves the cursor one cell back; from the first cell it goes to the last.
    pub fn ptr_dec(&mut self)
        requires
            old(self).wf(),
        ensures
            final(self).wf(),
            final(self).cells() == old(self).cells(),
            final(self).cursor() == (old(self).cursor() + old(self).cells().len() - 1)
                % (old(self).cells().len() as int),
            old(self).cursor() == 0 ==> final(self).cursor() == old(self).cells().len() - 1,
    {
        let n = self.cells.len();
        if self.cursor == 0 {
            self.cursor = n - 1;
            proof {
                lemma_small_mod((n - 1) as nat, n as nat);
            }
        } else {
            proof {
                lemma_small_mod((self.cursor - 1) as nat, n as nat);
                assert((self.cursor + n - 1) as int % n as int == (self.cursor - 1) as int % n as int)
                    by (nonlinear_arith)
                    requires n > 0, self.cursor >= 1;
            }
            self.cursor = self.cursor - 1;
        }
    }
}

} // verus!
