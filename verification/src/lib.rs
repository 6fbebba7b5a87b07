//! A deterministic two-dimensional cellular automaton on a bit-packed grid,
//! together with a rolling frame-rate sampler (see `fps`).
//!
//! The grid is bounded: a neighbour position that falls outside the grid is
//! skipped, never wrapped around to the opposite edge, so edge and corner
//! cells have fewer than eight neighbours.

use vstd::prelude::*;
use vstd::string::StringExecFns;
use fixedbitset::FixedBitSet;

pub mod bitset;
pub mod fps;
pub mod laws;

use crate::bitset::{
    bits_of, fbs_as_slice, fbs_clone, fbs_contains, fbs_len, fbs_set, fbs_with_capacity,
    random_cell, word_bit,
};

verus! {

/// The fixed step rule for one cell: a live cell survives with two or three
/// live neighbours and dies of under- or overpopulation otherwise; a dead
/// cell comes alive with exactly three live neighbours and otherwise stays
/// unchanged.
pub open spec fn rule(alive: bool, neighbors: int) -> bool {
    if alive && neighbors < 2 {
        false
    } else if alive && (neighbors == 2 || neighbors == 3) {
        true
    } else if alive && neighbors > 3 {
        false
    } else if !alive && neighbors == 3 {
        true
    } else {
        alive
    }
}

/// The cell of the row-major grid `g` of width `w` at row `r`, column `c`.
pub open spec fn cell(g: Seq<bool>, w: int, r: int, c: int) -> bool {
    g[r * w + c]
}

/// Whether `(r, c)` is a live cell of the bounded grid: positions off the
/// grid are dead, they never wrap to the opposite edge.
pub open spec fn alive_at(g: Seq<bool>, w: int, h: int, r: int, c: int) -> bool {
    0 <= r < h && 0 <= c < w && cell(g, w, r, c)
}

pub open spec fn b2i(b: bool) -> int {
    if b {
        1
    } else {
        0
    }
}

/// The number of live cells among the up-to-eight neighbours of `(r, c)`,
/// under the bounded (non-wrapping) edge policy.
pub open spec fn neighbor_count(g: Seq<bool>, w: int, h: int, r: int, c: int) -> int {
    b2i(alive_at(g, w, h, r - 1, c - 1)) + b2i(alive_at(g, w, h, r - 1, c)) + b2i(
        alive_at(g, w, h, r - 1, c + 1),
    ) + b2i(alive_at(g, w, h, r, c - 1)) + b2i(alive_at(g, w, h, r, c + 1)) + b2i(
        alive_at(g, w, h, r + 1, c - 1),
    ) + b2i(alive_at(g, w, h, r + 1, c)) + b2i(alive_at(g, w, h, r + 1, c + 1))
}

/// The grid after one generation: every cell is rewritten by `rule` from its
/// own state and its neighbour count in the previous generation.
pub open spec fn step_grid(g: Seq<bool>, w: int, h: int) -> Seq<bool> {
    Seq::new((w * h) as nat, |i: int| rule(g[i], neighbor_count(g, w, h, i / w, i % w)))
}

/// `g` with the cell at index `i` flipped.
pub open spec fn toggled(g: Seq<bool>, i: int) -> Seq<bool> {
    g.update(i, !g[i])
}

/// The text `render` produces for the first `n` cells of the grid `g` of
/// width `w`: a glyph per cell, and a line break after each cell whose
/// index is a multiple of the width.
pub open spec fn render_seq(g: Seq<bool>, w: int, n: int) -> Seq<char>
    decreases n,
{
    if n <= 0 {
        Seq::empty()
    } else {
        let bit = n - 1;
        let sym: char = if g[bit] {
            '◼'
        } else {
            '◻'
        };
        let out = render_seq(g, w, bit) + seq![sym];
        if w > 0 && bit % w == 0 {
            out + seq!['\n']
        } else {
            out
        }
    }
}

/// Apply the fixed rule to one cell: from its state in this generation and
/// its live-neighbour count, the state it takes in the next generation.
pub fn step_cell(alive: bool, neighbors: u8) -> (next: bool)
    ensures
        next == rule(alive, neighbors as int),
{
    if alive && neighbors < 2 {
        // underpopulation
        false
    } else if alive && (neighbors == 2 || neighbors == 3) {
        // stable
        true
    } else if alive && neighbors > 3 {
        // overpopulation
        false
    } else if !alive && neighbors == 3 {
        // birth
        true
    } else {
        alive
    }
}

/// A fixed-size bounded grid of binary cells, advanced one generation per
/// `tick` call. Cells are packed one bit per cell, row-major, in a
/// `fixedbitset::FixedBitSet`.
pub struct Universe {
    width: u32,
    height: u32,
    cells: FixedBitSet,
}

impl Universe {
    /// The grid width in cells.
    pub closed spec fn spec_width(&self) -> u32 {
        self.width
    }

    /// The grid height in cells.
    pub closed spec fn spec_height(&self) -> u32 {
        self.height
    }

    /// The cells, row-major: index `r * width + c` holds row `r`, column `c`.
    pub closed spec fn grid(&self) -> Seq<bool> {
        bits_of(self.cells)
    }

    /// The grid holds exactly `width * height` cells, and that count fits
    /// the index arithmetic.
    pub open spec fn wf(&self) -> bool {
        &&& self.grid().len() == self.spec_width() * self.spec_height()
        &&& self.spec_width() * self.spec_height() <= u32::MAX
    }

    /// The grid one generation ahead of this one.
    pub open spec fn next_grid(&self) -> Seq<bool> {
        step_grid(self.grid(), self.spec_width() as int, self.spec_height() as int)
    }

    pub fn width(&self) -> (w: u32)
        ensures
            w == self.spec_width(),
    {
        self.width
    }

    pub fn height(&self) -> (h: u32)
        ensures
            h == self.spec_height(),
    {
        self.height
    }

    /// A read-only view of the packed cell bits: 32-bit words, bit `i` of
    /// the grid stored in word `i / 32` at position `i % 32`. The borrow is
    /// replaced wholesale by `tick`, `clear` and `reset`.
    pub fn cells(&self) -> (r: &[u32])
        requires
            self.wf(),
        ensures
            r@.len() == (self.grid().len() + 31) / 32,
            forall|i: int|
                0 <= i < self.grid().len() ==> self.grid()[i] == word_bit(
                    r@[i / 32],
                    (i % 32) as u32,
                ),
    {
        fbs_as_slice(&self.cells)
    }

    /// Translate a row and column into the row-major cell index.
    fn get_index(&self, row: u32, col: u32) -> (idx: usize)
        requires
            self.wf(),
            row < self.spec_height(),
            col < self.spec_width(),
        ensures
            idx == row * self.spec_width() + col,
            idx < self.grid().len(),
    {
        proof {
            assert(row * self.spec_width() + col < self.spec_width() * self.spec_height())
                by (nonlinear_arith)
                requires
                    row < self.spec_height(),
                    col < self.spec_width(),
            ;
        }
        (row as usize) * (self.width as usize) + (col as usize)
    }

    /// A grid of `size` by `size` cells, all dead.
    pub fn new_dead(size: u32) -> (u: Universe)
        requires
            size * size <= u32::MAX,
        ensures
            u.wf(),
            u.spec_width() == size,
            u.spec_height() == size,
            u.grid() == Seq::new((size * size) as nat, |i: int| false),
    {
        let n = (size as usize) * (size as usize);
        let cells = fbs_with_capacity(n);
        Universe { width: size, height: size, cells }
    }

    /// A grid of `size` by `size` cells seeded from `bits`, row-major.
    pub fn from_bits(size: u32, bits: &Vec<bool>) -> (u: Universe)
        requires
            size * size <= u32::MAX,
            bits@.len() == size * size,
        ensures
            u.wf(),
            u.spec_width() == size,
            u.spec_height() == size,
            u.grid() == bits@,
    {
        let n = (size as usize) * (size as usize);
        let mut cells = fbs_with_capacity(n);
        let mut i: usize = 0;
        while i < n
            invariant
                n == size * size,
                i <= n,
                bits@.len() == n,
                bits_of(cells).len() == n,
                forall|j: int| 0 <= j < i ==> bits_of(cells)[j] == bits@[j],
                forall|j: int| i <= j < n ==> bits_of(cells)[j] == false,
            decreases n - i,
        {
            fbs_set(&mut cells, i, bits[i]);
            i += 1;
        }
        let u = Universe { width: size, height: size, cells };
        proof {
            assert(u.grid() =~= bits@);
        }
        u
    }

    /// Flip exactly one cell, leaving every other cell as it was.
    pub fn toggle_cell(&mut self, row: u32, col: u32)
        requires
            old(self).wf(),
            row < old(self).spec_height(),
            col < old(self).spec_width(),
        ensures
            final(self).wf(),
            final(self).spec_width() == old(self).spec_width(),
            final(self).spec_height() == old(self).spec_height(),
            final(self).grid() == toggled(
                old(self).grid(),
                row * old(self).spec_width() + col,
            ),
    {
        let idx = self.get_index(row, col);
        let cur = fbs_contains(&self.cells, idx);
        fbs_set(&mut self.cells, idx, !cur);
    }

    /// Whether `(row, col)` names a live in-bounds cell; positions off the
    /// grid report dead, so the grid never wraps at its edges.
    fn alive_checked(&self, row: i64, col: i64) -> (r: bool)
        requires
            self.wf(),
        ensures
            r == alive_at(
                self.grid(),
                self.spec_width() as int,
                self.spec_height() as int,
                row as int,
                col as int,
            ),
    {
        if 0 <= row && row < self.height as i64 && 0 <= col && col < self.width as i64 {
            let idx = self.get_index(row as u32, col as u32);
            fbs_contains(&self.cells, idx)
        } else {
            false
        }
    }

    /// Count the live cells among the up-to-eight neighbours of `(row, col)`,
    /// skipping positions that fall off the grid.
    fn live_neighbor_count(&self, row: u32, col: u32) -> (count: u8)
        requires
            self.wf(),
            row < self.spec_height(),
            col < self.spec_width(),
        ensures
            count == neighbor_count(
                self.grid(),
                self.spec_width() as int,
                self.spec_height() as int,
                row as int,
                col as int,
            ),
    {
        let r = row as i64;
        let c = col as i64;
        let mut count: u8 = 0;
        if self.alive_checked(r - 1, c - 1) {
            count += 1;
        }
        if self.alive_checked(r - 1, c) {
            count += 1;
        }
        if self.alive_checked(r - 1, c + 1) {
            count += 1;
        }
        if self.alive_checked(r, c - 1) {
            count += 1;
        }
        if self.alive_checked(r, c + 1) {
            count += 1;
        }
        if self.alive_checked(r + 1, c - 1) {
            count += 1;
        }
        if self.alive_checked(r + 1, c) {
            count += 1;
        }
        if self.alive_checked(r + 1, c + 1) {
            count += 1;
        }
        count
    }

    /// Advance the grid by exactly one generation.
    ///
    /// Every cell is rewritten by the fixed rule from the previous
    /// generation, read through a scratch copy so that no partially updated
    /// state is ever consulted. The returned vector is index-aligned with
    /// the grid and reports, per cell, whether its state is unchanged from
    /// the prior generation (`true` = unchanged), so a renderer can redraw
    /// only what moved.
    pub fn tick(&mut self) -> (unchanged: Vec<bool>)
        requires
            old(self).wf(),
        ensures
            final(self).wf(),
            final(self).spec_width() == old(self).spec_width(),
            final(self).spec_height() == old(self).spec_height(),
            final(self).grid() == old(self).next_grid(),
            unchanged@.len() == old(self).grid().len(),
            forall|i: int|
                0 <= i < unchanged@.len() ==> (unchanged@[i] <==> final(self).grid()[i] == old(
                    self,
                ).grid()[i]),
    {
        let ghost g0 = self.grid();
        let ghost wi = self.spec_width() as int;
        let ghost hi = self.spec_height() as int;
        let mut next = fbs_clone(&self.cells);
        let mut unchanged: Vec<bool> = Vec::new();
        let w = self.width;
        let h = self.height;
        let mut row: u32 = 0;
        while row < h
            invariant
                *self == *old(self),
                self.wf(),
                w == self.spec_width(),
                h == self.spec_height(),
                g0 == self.grid(),
                wi == w as int,
                hi == h as int,
                row <= h,
                bits_of(next).len() == g0.len(),
                unchanged@.len() == row * wi,
                forall|j: int| 0 <= j < row * wi ==> bits_of(next)[j] == step_grid(g0, wi, hi)[j],
                forall|j: int| row * wi <= j < g0.len() ==> bits_of(next)[j] == g0[j],
                forall|j: int|
                    0 <= j < row * wi ==> (unchanged@[j] <==> step_grid(g0, wi, hi)[j] == g0[j]),
            decreases h - row,
        {
            let mut col: u32 = 0;
            proof {
                assert(row * wi + wi <= hi * wi) by (nonlinear_arith)
                    requires
                        row < h,
                        wi == w as int,
                        hi == h as int,
                        0 <= wi,
                ;
            }
            while col < w
                invariant
                    *self == *old(self),
                    self.wf(),
                    w == self.spec_width(),
                    h == self.spec_height(),
                    g0 == self.grid(),
                    wi == w as int,
                    hi == h as int,
                    row < h,
                    col <= w,
                    g0.len() == wi * hi,
                    row * wi + wi <= hi * wi,
                    bits_of(next).len() == g0.len(),
                    unchanged@.len() == row * wi + col,
                    forall|j: int|
                        0 <= j < row * wi + col ==> bits_of(next)[j] == step_grid(g0, wi, hi)[j],
                    forall|j: int| row * wi + col <= j < g0.len() ==> bits_of(next)[j] == g0[j],
                    forall|j: int|
                        0 <= j < row * wi + col ==> (unchanged@[j] <==> step_grid(g0, wi, hi)[j]
                            == g0[j]),
                decreases w - col,
            {
                let idx = self.get_index(row, col);
                let cur = fbs_contains(&self.cells, idx);
                let n = self.live_neighbor_count(row, col);
                let next_cell = step_cell(cur, n);
                fbs_set(&mut next, idx, next_cell);
                unchanged.push(next_cell == cur);
                proof {
                    vstd::arithmetic::div_mod::lemma_fundamental_div_mod_converse(
                        idx as int,
                        wi,
                        row as int,
                        col as int,
                    );
                    assert(step_grid(g0, wi, hi)[idx as int] == rule(
                        g0[idx as int],
                        neighbor_count(g0, wi, hi, row as int, col as int),
                    ));
                }
                col += 1;
            }
            proof {
                assert((row + 1) * wi == row * wi + wi) by (nonlinear_arith);
            }
            row += 1;
        }
        self.cells = next;
        proof {
            assert(h * wi == wi * hi) by (nonlinear_arith)
                requires
                    hi == h as int,
            ;
            assert(bits_of(next) =~= step_grid(g0, wi, hi));
        }
        unchanged
    }

    /// Regenerate the grid to all-dead, keeping its dimensions.
    pub fn clear(&mut self)
        requires
            old(self).wf(),
        ensures
            final(self).wf(),
            final(self).spec_width() == old(self).spec_width(),
            final(self).spec_height() == old(self).spec_height(),
            final(self).grid().len() == old(self).grid().len(),
            forall|i: int| 0 <= i < final(self).grid().len() ==> !final(self).grid()[i],
    {
        let n = (self.width as usize) * (self.height as usize);
        self.cells = fbs_with_capacity(n);
    }

    /// Regenerate every cell to a fresh independent draw from the host's
    /// random source, keeping the dimensions. The draws decide the content,
    /// so only the shape of the grid is promised.
    pub fn reset(&mut self)
        requires
            old(self).wf(),
        ensures
            final(self).wf(),
            final(self).spec_width() == old(self).spec_width(),
            final(self).spec_height() == old(self).spec_height(),
            final(self).grid().len() == old(self).grid().len(),
    {
        let n = (self.width as usize) * (self.height as usize);
        let mut i: usize = 0;
        while i < n
            invariant
                self.wf(),
                self.spec_width() == old(self).spec_width(),
                self.spec_height() == old(self).spec_height(),
                self.grid().len() == old(self).grid().len(),
                n == self.grid().len(),
                i <= n,
            decreases n - i,
        {
            let v = random_cell();
            fbs_set(&mut self.cells, i, v);
            i += 1;
        }
    }

    /// A grid of `size` by `size` cells, each independently alive or dead
    /// as the host's random source decides, so only the shape of the grid
    /// is promised.
    pub fn new(size: u32) -> (u: Universe)
        requires
            size * size <= u32::MAX,
        ensures
            u.wf(),
            u.spec_width() == size,
            u.spec_height() == size,
            u.grid().len() == size * size,
    {
        let mut u = Universe::new_dead(size);
        u.reset();
        u
    }

    /// The grid as text, one glyph per cell in index order: a filled square
    /// for a live cell, an open square for a dead one, with a line break
    /// after each cell whose index is a multiple of the width.
    pub fn render(&self) -> (s: String)
        requires
            self.wf(),
        ensures
            s@ == render_seq(self.grid(), self.spec_width() as int, self.grid().len() as int),
    {
        let mut s = String::new();
        let len = fbs_len(&self.cells);
        let mut bit: usize = 0;
        while bit < len
            invariant
                self.wf(),
                len == self.grid().len(),
                bit <= len,
                s@ == render_seq(self.grid(), self.spec_width() as int, bit as int),
            decreases len - bit,
        {
            proof {
                reveal_strlit("◼");
                reveal_strlit("◻");
                reveal_strlit("\n");
                if self.spec_width() == 0 {
                    assert(self.grid().len() == 0);
                }
            }
            let alive = fbs_contains(&self.cells, bit);
            if alive {
                s.append("◼");
            } else {
                s.append("◻");
            }
            if (bit as u32) % self.width == 0 {
                s.append("\n");
            }
            proof {
                assert(s@ =~= render_seq(
                    self.grid(),
                    self.spec_width() as int,
                    bit as int + 1,
                ));
            }
            bit += 1;
        }
        s
    }
}

} // verus!
