//! The growable, zero-defaulted byte tape.

use vstd::prelude::*;

verus! {

/// Wrapping increment of one 8-bit cell: 255 goes back to 0.
pub open spec fn wrap_inc(v: u8) -> u8 {
    if v == 255 {
        0
    } else {
        (v + 1) as u8
    }
}

/// Wrapping decrement of one 8-bit cell: 0 goes back to 255.
pub open spec fn wrap_dec(v: u8) -> u8 {
    if v == 0 {
        255
    } else {
        (v - 1) as u8
    }
}

/// What a read of the tape's storage yields: the stored cell inside the
/// storage, and 0 at or beyond its length. A read never grows the storage.
pub open spec fn tape_read(cells: Seq<u8>, i: int) -> u8 {
    if 0 <= i < cells.len() {
        cells[i]
    } else {
        0
    }
}

/// What a write at index `i` leaves behind: storage covering `i`, zero-filling
/// any newly exposed cells, with `v` at `i` and every other readable index
/// unchanged.
pub open spec fn tape_write(cells: Seq<u8>, i: int, v: u8) -> Seq<u8>
    recommends
        0 <= i,
{
    let n = if i + 1 > cells.len() {
        i + 1
    } else {
        cells.len() as int
    };
    Seq::new(
        n as nat,
        |j: int|
            if j == i {
                v
            } else {
                tape_read(cells, j)
            },
    )
}

/// The engine's working memory: a dynamically growable array of 8-bit cells,
/// logically zero-filled past its current length. Storage only ever grows.
#[derive(Debug, Clone)]
pub struct Tape {
    cells: Vec<u8>,
}

impl View for Tape {
    type V = Seq<u8>;

    closed spec fn view(&self) -> Seq<u8> {
        self.cells@
    }
}

impl Default for Tape {
    fn default() -> (t: Tape)
        ensures
            t@ == Seq::<u8>::empty(),
    {
        Tape { cells: Vec::new() }
    }
}

impl Tape {
    /// A fresh tape with no cell written yet: every index reads 0.
    pub fn new() -> (t: Tape)
        ensures
            t@ == Seq::<u8>::empty(),
    {
        Tape { cells: Vec::new() }
    }

    /// Extends the storage with zeros until it covers `index`.
    fn grow_to_cover(&mut self, index: usize)
        requires
            index < usize::MAX,
        ensures
            final(self)@.len() == if old(self)@.len() > index {
                old(self)@.len() as int
            } else {
                index + 1
            },
            forall|j: int| 0 <= j < final(self)@.len() ==> final(self)@[j] == tape_read(old(self)@, j),
    {
        let ghost orig = self.cells@;
        while self.cells.len() <= index
            invariant
                index < usize::MAX,
                self.cells@.len() >= orig.len(),
                orig.len() > index ==> self.cells@.len() == orig.len(),
                orig.len() <= index ==> self.cells@.len() <= index + 1,
                forall|j: int| 0 <= j < self.cells@.len() ==> self.cells@[j] == tape_read(orig, j),
            decreases index + 1 - self.cells.len(),
        {
            self.cells.push(0);
        }
    }

    /// Wrapping increment of the cell at `index`, growing the storage to cover
    /// `index` if necessary.
    pub fn inc(&mut self, index: usize)
        requires
            index < usize::MAX,
        ensures
            final(self)@ == tape_write(
                old(self)@,
                index as int,
                wrap_inc(tape_read(old(self)@, index as int)),
            ),
    {
        let ghost orig = self.cells@;
        self.grow_to_cover(index);
        let cur = self.cells[index];
        let next = if cur == 255 {
            0
        } else {
            cur + 1
        };
        self.cells.set(index, next);
        proof {
            assert(self.cells@ =~= tape_write(orig, index as int, wrap_inc(tape_read(orig, index as int))));
        }
    }

    /// Wrapping decrement of the cell at `index`, growing the storage to cover
    /// `index` if necessary.
    pub fn dec(&mut self, index: usize)
        requires
            index < usize::MAX,
        ensures
            final(self)@ == tape_write(
                old(self)@,
                index as int,
                wrap_dec(tape_read(old(self)@, index as int)),
            ),
    {
        let ghost orig = self.cells@;
        self.grow_to_cover(index);
        let cur = self.cells[index];
        let next = if cur == 0 {
            255
        } else {
            cur - 1
        };
        self.cells.set(index, next);
        proof {
            assert(self.cells@ =~= tape_write(orig, index as int, wrap_dec(tape_read(orig, index as int))));
        }
    }

    /// Direct write of `value` at `index`, growing the storage to cover
    /// `index` if necessary.
    pub fn set(&mut self, index: usize, value: u8)
        requires
            index < usize::MAX,
        ensures
            final(self)@ == tape_write(old(self)@, index as int, value),
    {
        let ghost orig = self.cells@;
        self.grow_to_cover(index);
        self.cells.set(index, value);
        proof {
            assert(self.cells@ =~= tape_write(orig, index as int, value));
        }
    }

    /// The cell at `index`: 0 for any index at or beyond the current storage
    /// length. Takes the tape immutably, so a read can never grow the storage.
    pub fn get(&self, index: usize) -> (r: u8)
        ensures
            r == tape_read(self@, index as int),
    {
        if index < self.cells.len() {
            self.cells[index]
        } else {
            0
        }
    }
}

/// The tape round-trip law: a write of `v` at `i` reads back as `v` at `i`,
/// leaves the value read at every other index unchanged, and an index never
/// covered by a write (in particular one past the highest written index)
/// reads 0.
pub proof fn lemma_tape_round_trip(cells: Seq<u8>, i: int, v: u8, j: int)
    requires
        0 <= i,
        0 <= j,
    ensures
        tape_read(tape_write(cells, i, v), i) == v,
        j != i ==> tape_read(tape_write(cells, i, v), j) == tape_read(cells, j),
        i >= cells.len() ==> tape_read(cells, i) == 0,
{
}

/// The cell wrap-around law: incrementing a cell holding 255 yields 0, and
/// decrementing a cell holding 0 yields 255.
pub proof fn lemma_cell_wraps()
    ensures
        wrap_inc(255) == 0,
        wrap_dec(0) == 255,
{
}

} // verus!
