//! Laws of the grid engine: what one step does to the classic patterns,
//! that the bounded edge never wraps, and that toggling is an involution.

use vstd::prelude::*;
use vstd::arithmetic::div_mod::lemma_fundamental_div_mod;
use vstd::arithmetic::div_mod::lemma_fundamental_div_mod_converse;
use crate::{alive_at, b2i, cell, neighbor_count, rule, step_grid, toggled};

verus! {

/// The cell the stepped grid holds at `(r, c)`: the rule applied to the
/// old cell and its old neighbour count.
pub proof fn lemma_step_cell_coords(g: Seq<bool>, w: int, h: int, r: int, c: int)
    requires
        g.len() == w * h,
        0 <= r < h,
        0 <= c < w,
    ensures
        cell(step_grid(g, w, h), w, r, c) == rule(cell(g, w, r, c), neighbor_count(g, w, h, r, c)),
{
    let i = r * w + c;
    assert(0 <= r * w + c && r * w + c < w * h) by (nonlinear_arith)
        requires
            0 <= r < h,
            0 <= c < w,
    ;
    lemma_fundamental_div_mod_converse(i, w, r, c);
}

/// Two grids of one shape that agree cell by cell are equal.
pub proof fn lemma_grid_ext(a: Seq<bool>, b: Seq<bool>, w: int, h: int)
    requires
        0 <= w,
        0 <= h,
        a.len() == w * h,
        b.len() == w * h,
        forall|r: int, c: int|
            0 <= r < h && 0 <= c < w ==> (#[trigger] cell(a, w, r, c)) == cell(b, w, r, c),
    ensures
        a == b,
{
    assert forall|i: int| 0 <= i < a.len() implies a[i] == b[i] by {
        assert(w > 0) by (nonlinear_arith)
            requires
                0 <= w,
                0 <= i < w * h,
        ;
        let r = i / w;
        let c = i % w;
        lemma_fundamental_div_mod(i, w);
        assert(0 <= r && r < h) by (nonlinear_arith)
            requires
                i == w * r + c,
                0 <= c < w,
                0 <= i < w * h,
                w > 0,
        ;
        assert(cell(a, w, r, c) == cell(b, w, r, c));
        assert(r * w + c == i);
    };
    assert(a =~= b);
}

/// Law: the corner cell of the bounded grid counts only its three in-grid
/// neighbours. The off-grid positions beside it — where a wrapping grid
/// would read cells from the opposite edges — contribute nothing, whatever
/// the grid holds there.
pub proof fn lemma_corner_counts_no_offgrid(g: Seq<bool>, w: int, h: int)
    ensures
        neighbor_count(g, w, h, 0, 0) == b2i(alive_at(g, w, h, 0, 1)) + b2i(alive_at(g, w, h, 1, 0))
            + b2i(alive_at(g, w, h, 1, 1)),
{
}

/// Law: toggling one cell twice, with nothing in between, restores the
/// grid exactly.
pub proof fn lemma_toggle_twice(g: Seq<bool>, i: int)
    requires
        0 <= i < g.len(),
    ensures
        toggled(toggled(g, i), i) == g,
{
    assert(toggled(toggled(g, i), i) =~= g);
}

/// `g` is dead everywhere except a two-by-two block of live cells whose
/// top-left corner is `(br, bc)`.
pub open spec fn block_grid(g: Seq<bool>, w: int, h: int, br: int, bc: int) -> bool {
    forall|r: int, c: int|
        0 <= r < h && 0 <= c < w ==> ((#[trigger] cell(g, w, r, c)) <==> (br <= r <= br + 1 && bc
            <= c <= bc + 1))
}

/// Law: a two-by-two block of live cells surrounded by dead cells is a
/// still life: each live cell has exactly three live neighbours, no dead
/// cell reaches three, and one step leaves the grid unchanged.
pub proof fn lemma_block_still_life(g: Seq<bool>, w: int, h: int, br: int, bc: int)
    requires
        g.len() == w * h,
        1 <= br,
        br + 2 < h,
        1 <= bc,
        bc + 2 < w,
        block_grid(g, w, h, br, bc),
    ensures
        step_grid(g, w, h) == g,
{
    let sg = step_grid(g, w, h);
    assert forall|r: int, c: int| 0 <= r < h && 0 <= c < w implies (#[trigger] cell(sg, w, r, c))
        == cell(g, w, r, c) by {
        lemma_step_cell_coords(g, w, h, r, c);
    };
    lemma_grid_ext(sg, g, w, h);
}

/// `g` is dead everywhere except three live cells in a row: row `br`,
/// columns `bc` to `bc + 2`.
pub open spec fn row_blinker_grid(g: Seq<bool>, w: int, h: int, br: int, bc: int) -> bool {
    forall|r: int, c: int|
        0 <= r < h && 0 <= c < w ==> ((#[trigger] cell(g, w, r, c)) <==> (r == br && bc <= c <= bc
            + 2))
}

/// `g` is dead everywhere except three live cells in a column: rows `br`
/// to `br + 2`, column `bc`.
pub open spec fn col_blinker_grid(g: Seq<bool>, w: int, h: int, br: int, bc: int) -> bool {
    forall|r: int, c: int|
        0 <= r < h && 0 <= c < w ==> ((#[trigger] cell(g, w, r, c)) <==> (c == bc && br <= r <= br
            + 2))
}

/// One step turns a row blinker into the column blinker through its
/// centre cell.
pub proof fn lemma_row_blinker_steps_to_col(g: Seq<bool>, w: int, h: int, br: int, bc: int)
    requires
        g.len() == w * h,
        1 <= br,
        br + 1 < h,
        1 <= bc,
        bc + 2 < w,
        row_blinker_grid(g, w, h, br, bc),
    ensures
        col_blinker_grid(step_grid(g, w, h), w, h, br - 1, bc + 1),
{
    let sg = step_grid(g, w, h);
    assert forall|r: int, c: int| 0 <= r < h && 0 <= c < w implies (#[trigger] cell(sg, w, r, c))
        <==> (c == bc + 1 && br - 1 <= r <= br - 1 + 2) by {
        lemma_step_cell_coords(g, w, h, r, c);
    };
}

/// One step turns a column blinker into the row blinker through its
/// centre cell.
pub proof fn lemma_col_blinker_steps_to_row(g: Seq<bool>, w: int, h: int, br: int, bc: int)
    requires
        g.len() == w * h,
        0 <= br,
        br + 2 < h,
        1 <= bc,
        bc + 1 < w,
        col_blinker_grid(g, w, h, br, bc),
    ensures
        row_blinker_grid(step_grid(g, w, h), w, h, br + 1, bc - 1),
{
    let sg = step_grid(g, w, h);
    assert forall|r: int, c: int| 0 <= r < h && 0 <= c < w implies (#[trigger] cell(sg, w, r, c))
        <==> (r == br + 1 && bc - 1 <= c <= bc - 1 + 2) by {
        lemma_step_cell_coords(g, w, h, r, c);
    };
}

/// Law: a blinker oscillates with period two. A row of three live cells
/// with margin differs from its start after one step and returns to it,
/// bit for bit, after exactly two.
pub proof fn lemma_blinker_oscillates(g: Seq<bool>, w: int, h: int, br: int, bc: int)
    requires
        g.len() == w * h,
        1 <= br,
        br + 1 < h,
        1 <= bc,
        bc + 2 < w,
        row_blinker_grid(g, w, h, br, bc),
    ensures
        step_grid(g, w, h) != g,
        step_grid(step_grid(g, w, h), w, h) == g,
{
    let s1 = step_grid(g, w, h);
    let s2 = step_grid(s1, w, h);
    lemma_row_blinker_steps_to_col(g, w, h, br, bc);
    lemma_col_blinker_steps_to_row(s1, w, h, br - 1, bc + 1);
    assert forall|r: int, c: int| 0 <= r < h && 0 <= c < w implies (#[trigger] cell(s2, w, r, c))
        == cell(g, w, r, c) by {};
    lemma_grid_ext(s2, g, w, h);
    assert(cell(g, w, br, bc));
    assert(!cell(s1, w, br, bc));
    assert(0 <= br * w + bc && br * w + bc < w * h) by (nonlinear_arith)
        requires
            0 <= br < h,
            0 <= bc < w,
    ;
}

} // verus!
