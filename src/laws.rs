//! Properties of the engine that relate several states or hold of every board.

use vstd::prelude::*;
use crate::tetris::{
    Game, ROWS, COLS, turn, fits, placed, covered, has_empty, kept_rows, cleared, empty_row,
    spawn_pos,
};

verus! {

/// Turning a piece four times brings every offset back to where it was.
pub proof fn lemma_four_turns_identity(cells: Seq<(int, int)>)
    ensures
        cells.map_values(|p: (int, int)| turn(p)).map_values(|p: (int, int)| turn(p)).map_values(
            |p: (int, int)| turn(p),
        ).map_values(|p: (int, int)| turn(p)) == cells,
{
    let once = cells.map_values(|p: (int, int)| turn(p));
    let twice = once.map_values(|p: (int, int)| turn(p));
    let thrice = twice.map_values(|p: (int, int)| turn(p));
    let four = thrice.map_values(|p: (int, int)| turn(p));
    assert(four =~= cells);
}

/// A sideways step never changes the row; when it moves the piece, every
/// cell of the piece at its new place is on the board and empty; and a
/// piece that fitted before still fits after.
pub proof fn lemma_sideways_step(g: Game, next: Game, dy: int)
    requires
        g.wf(),
        g.shifted(next, dy),
    ensures
        next.pos().0 == g.pos().0,
        next.pos() != g.pos() ==> next.fits_at(0, 0),
        g.fits_at(0, 0) ==> next.fits_at(0, 0),
{
    if g.fits_at(0, dy) {
        assert(next.pos() == (g.pos().0 + 0, g.pos().1 + dy));
    }
}

/// Writing a piece into a board marks every one of its cells that lies on
/// the board as occupied.
pub proof fn lemma_placed_cells_occupied(
    grid: Seq<Seq<usize>>,
    cells: Seq<(int, int)>,
    row: int,
    col: int,
)
    requires
        grid.len() == ROWS,
        forall|r: int| 0 <= r < ROWS ==> (#[trigger] grid[r]).len() == COLS,
    ensures
        forall|k: int|
            0 <= k < cells.len() && 0 <= row + cells[k].0 < ROWS && 0 <= col + cells[k].1 < COLS
                ==> placed(grid, cells, row, col)[row + #[trigger] cells[k].0][col + cells[k].1]
                != 0,
{
    assert forall|k: int|
        0 <= k < cells.len() && 0 <= row + cells[k].0 < ROWS && 0 <= col + cells[k].1
            < COLS implies placed(grid, cells, row, col)[row + #[trigger] cells[k].0][col
        + cells[k].1] != 0 by {
        assert(covered(cells, cells.len() as int, row, col, row + cells[k].0, col + cells[k].1));
    }
}

proof fn lemma_kept_rows_all(s: Seq<Seq<usize>>)
    requires
        forall|r: int| 0 <= r < s.len() ==> has_empty(#[trigger] s[r]),
    ensures
        kept_rows(s) == s,
    decreases s.len(),
{
    reveal(Seq::filter);
    if s.len() > 0 {
        lemma_kept_rows_all(s.drop_last());
        assert(s.drop_last().push(s.last()) =~= s);
    }
}

/// Locking a piece that fits where it stands leaves each of its cells
/// occupied, as long as no row became full (a full row is cleared away).
pub proof fn lemma_lock_occupies_cells(g: Game, next: Game)
    requires
        g.wf(),
        g.fits_at(0, 0),
        g.locked(next),
        forall|r: int| 0 <= r < ROWS ==> has_empty(#[trigger] g.placed_board()[r]),
    ensures
        forall|k: int|
            0 <= k < g.piece().cells().len() ==> next.grid()[g.pos().0 + #[trigger] g.piece().cells()[k].0][g.pos().1
                + g.piece().cells()[k].1] != 0,
{
    let pb = g.placed_board();
    lemma_kept_rows_all(pb);
    assert(cleared(pb) =~= pb);
    lemma_placed_cells_occupied(g.grid(), g.piece().cells(), g.pos().0, g.pos().1);
    assert forall|k: int| 0 <= k < g.piece().cells().len() implies next.grid()[g.pos().0
        + #[trigger] g.piece().cells()[k].0][g.pos().1 + g.piece().cells()[k].1] != 0 by {
        assert(fits(g.grid(), g.piece().cells(), g.pos().0 + 0, g.pos().1 + 0));
        assert(g.pos().0 + 0 + g.piece().cells()[k].0 == g.pos().0 + g.piece().cells()[k].0);
    }
}

/// Clearing lines leaves exactly `ROWS` rows of `COLS` cells, no full row
/// among them, empty rows on top, and below them the rows that were not
/// full, in their order.
pub proof fn lemma_clear_full_rows(grid: Seq<Seq<usize>>)
    requires
        grid.len() == ROWS,
        forall|r: int| 0 <= r < ROWS ==> (#[trigger] grid[r]).len() == COLS,
    ensures
        cleared(grid).len() == ROWS,
        forall|r: int|
            0 <= r < ROWS ==> (#[trigger] cleared(grid)[r]).len() == COLS && has_empty(cleared(grid)[r]),
        forall|r: int| 0 <= r < ROWS - kept_rows(grid).len() ==> #[trigger] cleared(grid)[r] == empty_row(),
        cleared(grid).subrange(ROWS - kept_rows(grid).len(), ROWS as int) == kept_rows(grid),
{
    let pred = |row: Seq<usize>| has_empty(row);
    grid.lemma_filter_len(pred);
    let kr = kept_rows(grid);
    let n = ROWS - kr.len();
    let c = cleared(grid);
    assert forall|r: int| 0 <= r < ROWS implies (#[trigger] c[r]).len() == COLS && has_empty(c[r]) by {
        if r < n {
            assert(c[r] == empty_row());
            assert(empty_row()[0] == 0);
        } else {
            assert(c[r] == kr[r - n]);
            grid.lemma_filter_pred(pred, r - n);
            grid.lemma_filter_contains_rev(pred, kr[r - n]);
        }
    }
    assert(c.subrange(n, ROWS as int) =~= kr);
}

/// Two swaps from a state with no held piece: the first holds the falling
/// piece and spawns a canonical one; the second brings the first piece back
/// and holds the spawned one.
pub proof fn lemma_swap_twice(a: Game, b: Game, c: Game)
    requires
        a.saved() is None,
        a.swapped(b),
        b.swapped(c),
    ensures
        b.saved() == Some(a.piece()),
        b.piece().is_canonical(),
        b.pos() == spawn_pos(),
        c.piece() == a.piece(),
        c.saved() == Some(b.piece()),
        c.pos() == spawn_pos(),
        c.grid() == a.grid(),
{
}

/// A tick on a piece with room below moves it down one row, so every
/// further drop it still has room for is one row shorter; a tick on a piece
/// with no room below locks it.
pub proof fn lemma_tick_descends(a: Game, b: Game)
    requires
        a.ticked(b),
    ensures
        a.fits_at(1, 0) ==> b.pos() == (a.pos().0 + 1, a.pos().1) && forall|d: int|
            #[trigger] b.fits_at(d, 0) == a.fits_at(d + 1, 0),
        !a.fits_at(1, 0) ==> a.locked(b),
{
    if a.fits_at(1, 0) {
        assert forall|d: int| #[trigger] b.fits_at(d, 0) == a.fits_at(d + 1, 0) by {
            assert(b.pos().0 + d == a.pos().0 + (d + 1));
        }
    }
}

} // verus!
