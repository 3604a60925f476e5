use vstd::prelude::*;
use crate::laws::lemma_clear_full_rows;

verus! {

/// Relies on fastrand::usize: for a range `0..n` with `n > 0` it returns a
/// value in `0..=n-1` and does not panic.
#[verifier::external_body]
fn random_index(n: usize) -> (r: usize)
    requires
        n > 0,
    ensures
        r < n,
{
    fastrand::usize(0..n)
}

/// The display colour of each of the seven kinds of piece.
#[derive(Clone, Copy, Debug, PartialEq, Eq)]
pub enum PieceColor {
    Yellow,
    Turquoise,
    Red,
    Green,
    Orange,
    Blue,
    Purple,
}

/// A tetromino: four cell offsets relative to an anchor, and a kind in `1..=7`.
#[derive(Clone, Copy, Debug, PartialEq, Eq)]
pub struct Piece([(i32, i32); 4], usize);

/// Number of canonical shapes.
pub const NUM_KINDS: usize = 7;

/// The offsets of an offset list as mathematical pairs.
pub open spec fn int_cells(s: Seq<(i32, i32)>) -> Seq<(int, int)> {
    s.map_values(|p: (i32, i32)| (p.0 as int, p.1 as int))
}

/// A quarter turn of one offset about the local origin: `(i, j)` becomes `(j, -i)`.
pub open spec fn turn(p: (int, int)) -> (int, int) {
    (p.1, -p.0)
}

/// The offsets of the canonical shape of kind `k` (1 = O, 2 = I, 3 = S, 4 = Z,
/// 5 = L, 6 = J, 7 = T).
pub open spec fn canonical_cells(k: int) -> Seq<(int, int)> {
    if k == 1 {
        seq![(0, 0), (1, 0), (0, 1), (1, 1)]
    } else if k == 2 {
        seq![(0, 0), (1, 0), (2, 0), (3, 0)]
    } else if k == 3 {
        seq![(0, 0), (-1, -1), (1, 0), (0, 1)]
    } else if k == 4 {
        seq![(0, 0), (1, 1), (1, 0), (0, -1)]
    } else if k == 5 {
        seq![(0, 0), (1, 0), (2, 0), (2, 1)]
    } else if k == 6 {
        seq![(0, 0), (1, 0), (2, 0), (2, -1)]
    } else {
        seq![(0, 0), (0, 1), (0, -1), (1, 0)]
    }
}

/// The colour of each kind.
pub open spec fn color_of(k: int) -> PieceColor {
    if k == 1 {
        PieceColor::Yellow
    } else if k == 2 {
        PieceColor::Turquoise
    } else if k == 3 {
        PieceColor::Red
    } else if k == 4 {
        PieceColor::Green
    } else if k == 5 {
        PieceColor::Orange
    } else if k == 6 {
        PieceColor::Blue
    } else {
        PieceColor::Purple
    }
}

impl Piece {
    /// The four offsets, as `(row, column)` pairs.
    pub closed spec fn cells(self) -> Seq<(int, int)> {
        int_cells(self.0@)
    }

    /// The kind of the piece.
    pub closed spec fn kind(self) -> int {
        self.1 as int
    }

    /// A well-formed piece has a kind in `1..=7`, its first offset at the
    /// anchor itself, and every offset within three cells of the anchor
    /// (true of every canonical shape and kept by rotation).
    pub open spec fn wf(self) -> bool {
        &&& 1 <= self.kind() <= 7
        &&& self.cells().len() == 4
        &&& self.cells()[0] == (0int, 0int)
        &&& forall|k: int|
            0 <= k < 4 ==> -3 <= #[trigger] self.cells()[k].0 <= 3 && -3 <= self.cells()[k].1 <= 3
    }

    proof fn lemma_cells(self)
        ensures
            self.cells().len() == 4,
            forall|k: int|
                0 <= k < 4 ==> #[trigger] self.cells()[k] == (self.0[k].0 as int, self.0[k].1 as int),
    {
    }

    /// The canonical shape with index `index` (0 = O, ..., 6 = T); its kind is `index + 1`.
    pub fn canonical(index: usize) -> (r: Piece)
        requires
            index < NUM_KINDS,
        ensures
            r.kind() == index + 1,
            r.cells() == canonical_cells(index + 1),
            r.wf(),
    {
        let r = if index == 0 {
            Piece([(0, 0), (1, 0), (0, 1), (1, 1)], 1)
        } else if index == 1 {
            Piece([(0, 0), (1, 0), (2, 0), (3, 0)], 2)
        } else if index == 2 {
            Piece([(0, 0), (-1, -1), (1, 0), (0, 1)], 3)
        } else if index == 3 {
            Piece([(0, 0), (1, 1), (1, 0), (0, -1)], 4)
        } else if index == 4 {
            Piece([(0, 0), (1, 0), (2, 0), (2, 1)], 5)
        } else if index == 5 {
            Piece([(0, 0), (1, 0), (2, 0), (2, -1)], 6)
        } else {
            Piece([(0, 0), (0, 1), (0, -1), (1, 0)], 7)
        };
        proof {
            r.lemma_cells();
            assert(r.cells() =~= canonical_cells(index + 1));
        }
        r
    }

    /// A piece in its spawn orientation: the canonical shape of its own kind.
    pub open spec fn is_canonical(self) -> bool {
        1 <= self.kind() <= 7 && self.cells() == canonical_cells(self.kind())
    }

    /// This piece turned a quarter about its local origin: each offset
    /// `(i, j)` becomes `(j, -i)`, the kind is kept.
    pub fn rotated(&self) -> (r: Piece)
        requires
            self.wf(),
        ensures
            r.kind() == self.kind(),
            r.cells() == self.cells().map_values(|p: (int, int)| turn(p)),
            r.wf(),
    {
        proof {
            self.lemma_cells();
            assert(-3 <= self.cells()[1].0 <= 3 && -3 <= self.cells()[2].0 <= 3 && -3 <= self.cells()[3].0 <= 3);
        }
        let o = &self.0;
        let r = Piece(
            [(o[0].1, -o[0].0), (o[1].1, -o[1].0), (o[2].1, -o[2].0), (o[3].1, -o[3].0)],
            self.1,
        );
        proof {
            r.lemma_cells();
            assert(r.cells() =~= self.cells().map_values(|p: (int, int)| turn(p)));
        }
        r
    }

    /// One of the seven canonical shapes, chosen at random.
    pub fn random() -> (r: Piece)
        ensures
            r.is_canonical(),
            r.wf(),
    {
        let i = random_index(NUM_KINDS);
        Piece::canonical(i)
    }

    /// The display colour of the piece's kind.
    pub fn color(&self) -> (r: PieceColor)
        requires
            self.wf(),
        ensures
            r == color_of(self.kind()),
    {
        match self.1 {
            1 => PieceColor::Yellow,
            2 => PieceColor::Turquoise,
            3 => PieceColor::Red,
            4 => PieceColor::Green,
            5 => PieceColor::Orange,
            6 => PieceColor::Blue,
            _ => PieceColor::Purple,
        }
    }

    /// The four offsets, in order.
    pub fn offsets(&self) -> (r: [(i32, i32); 4])
        ensures
            int_cells(r@) == self.cells(),
    {
        self.0
    }
}


/// Number of rows of the board; row 0 is the top.
pub const ROWS: usize = 20;

/// Number of columns of the board.
pub const COLS: usize = 10;

/// A row with no occupied cell.
pub open spec fn empty_row() -> Seq<usize> {
    Seq::new(COLS as nat, |c: int| 0usize)
}

/// Cell `(r, c)` lies on the board and is empty.
pub open spec fn free(grid: Seq<Seq<usize>>, r: int, c: int) -> bool {
    0 <= r < grid.len() && 0 <= c < COLS && grid[r][c] == 0
}

/// Every cell of a piece with offsets `cells`, anchored at `(row, col)`, is free.
pub open spec fn fits(grid: Seq<Seq<usize>>, cells: Seq<(int, int)>, row: int, col: int) -> bool {
    forall|k: int| 0 <= k < cells.len() ==> free(grid, row + #[trigger] cells[k].0, col + cells[k].1)
}

/// The anchor at which new pieces appear: top row, middle column.
pub open spec fn spawn_pos() -> (int, int) {
    (0, COLS as int / 2)
}

/// The rows held by a vector of row vectors.
pub open spec fn rows_of(v: Seq<Vec<usize>>) -> Seq<Seq<usize>> {
    v.map_values(|row: Vec<usize>| row@)
}

/// Cell `(r, c)` is one of the first `n` cells of a piece with offsets
/// `cells` anchored at `(row, col)`.
pub open spec fn covered(cells: Seq<(int, int)>, n: int, row: int, col: int, r: int, c: int) -> bool {
    exists|j: int| 0 <= j < n && row + cells[j].0 == r && col + cells[j].1 == c
}

/// The board after the first `n` cells of the piece are marked occupied
/// (with 1); cells off the board are ignored.
pub open spec fn placed_upto(
    grid: Seq<Seq<usize>>,
    cells: Seq<(int, int)>,
    n: int,
    row: int,
    col: int,
) -> Seq<Seq<usize>> {
    Seq::new(
        grid.len(),
        |r: int|
            Seq::new(
                grid[r].len(),
                |c: int|
                    if covered(cells, n, row, col, r, c) {
                        1usize
                    } else {
                        grid[r][c]
                    },
            ),
    )
}

/// The board after every cell of the piece is marked occupied.
pub open spec fn placed(grid: Seq<Seq<usize>>, cells: Seq<(int, int)>, row: int, col: int) -> Seq<
    Seq<usize>,
> {
    placed_upto(grid, cells, cells.len() as int, row, col)
}

/// The row has at least one empty cell, i.e. it is not full.
pub open spec fn has_empty(row: Seq<usize>) -> bool {
    exists|c: int| 0 <= c < row.len() && row[c] == 0
}

/// The rows that are not full, in their order.
pub open spec fn kept_rows(grid: Seq<Seq<usize>>) -> Seq<Seq<usize>> {
    grid.filter(|row: Seq<usize>| has_empty(row))
}

/// The board after full rows are removed and empty rows are added on top
/// until it has `ROWS` rows again.
pub open spec fn cleared(grid: Seq<Seq<usize>>) -> Seq<Seq<usize>> {
    Seq::new((ROWS - kept_rows(grid).len()) as nat, |i: int| empty_row()) + kept_rows(grid)
}

proof fn lemma_kept_rows_push(s: Seq<Seq<usize>>, row: Seq<usize>)
    ensures
        kept_rows(s.push(row)) == if has_empty(row) {
            kept_rows(s).push(row)
        } else {
            kept_rows(s)
        },
{
    reveal(Seq::filter);
    assert(s.push(row).drop_last() =~= s);
}

/// A fresh row of `COLS` empty cells.
fn new_empty_row() -> (r: Vec<usize>)
    ensures
        r@ == empty_row(),
{
    let mut row: Vec<usize> = Vec::new();
    let mut c: usize = 0;
    while c < COLS
        invariant
            c <= COLS,
            row@ == Seq::new(c as nat, |j: int| 0usize),
        decreases COLS - c,
    {
        row.push(0);
        c = c + 1;
        proof {
            assert(row@ =~= Seq::new(c as nat, |j: int| 0usize));
        }
    }
    row
}

/// Whether the row has an empty cell.
fn row_has_empty(row: &Vec<usize>) -> (r: bool)
    ensures
        r == has_empty(row@),
{
    let mut c: usize = 0;
    while c < row.len()
        invariant
            c <= row@.len(),
            forall|j: int| 0 <= j < c ==> row@[j] != 0,
        decreases row@.len() - c,
    {
        if row[c] == 0 {
            return true;
        }
        c = c + 1;
    }
    false
}

/// Input events that the player can send.
pub enum PlayerInput {
    Left,
    Right,
    Rotate,
    Swap,
    Place,
}

/// The engine: the board, the falling piece with its anchor, and the held piece.
pub struct Game {
    board: Vec<Vec<usize>>,
    current_piece: Piece,
    piece_pos: (usize, usize),
    saved_piece: Option<Piece>,
}

impl Game {
    /// The board as rows of cells; 0 is an empty cell.
    pub closed spec fn grid(self) -> Seq<Seq<usize>> {
        rows_of(self.board@)
    }

    /// The falling piece.
    pub closed spec fn piece(self) -> Piece {
        self.current_piece
    }

    /// The anchor of the falling piece, as `(row, column)`.
    pub closed spec fn pos(self) -> (int, int) {
        (self.piece_pos.0 as int, self.piece_pos.1 as int)
    }

    /// The held piece, if any.
    pub closed spec fn saved(self) -> Option<Piece> {
        self.saved_piece
    }

    /// The board has `ROWS` rows of `COLS` cells, the pieces are well formed,
    /// and the anchor lies on the board.
    pub open spec fn wf(self) -> bool {
        &&& self.grid().len() == ROWS
        &&& forall|r: int| 0 <= r < ROWS ==> (#[trigger] self.grid()[r]).len() == COLS
        &&& self.piece().wf()
        &&& (self.saved() matches Some(p) ==> p.wf())
        &&& 0 <= self.pos().0 < ROWS
        &&& 0 <= self.pos().1 < COLS
    }

    /// The falling piece, shifted by `dx` rows and `dy` columns, lies wholly
    /// on the board over empty cells.
    pub open spec fn fits_at(self, dx: int, dy: int) -> bool {
        fits(self.grid(), self.piece().cells(), self.pos().0 + dx, self.pos().1 + dy)
    }

    /// The board with the falling piece written into it where it stands.
    pub open spec fn placed_board(self) -> Seq<Seq<usize>> {
        placed(self.grid(), self.piece().cells(), self.pos().0, self.pos().1)
    }

    /// `next` is this state after a sideways step of `dy` columns: taken
    /// when the piece fits there, skipped otherwise.
    pub open spec fn shifted(self, next: Game, dy: int) -> bool {
        &&& next.grid() == self.grid()
        &&& next.piece() == self.piece()
        &&& next.saved() == self.saved()
        &&& next.pos() == if self.fits_at(0, dy) {
            (self.pos().0, self.pos().1 + dy)
        } else {
            self.pos()
        }
    }

    /// `next` is this state with the falling piece turned a quarter.
    pub open spec fn turned(self, next: Game) -> bool {
        &&& next.grid() == self.grid()
        &&& next.pos() == self.pos()
        &&& next.saved() == self.saved()
        &&& next.piece().kind() == self.piece().kind()
        &&& next.piece().cells() == self.piece().cells().map_values(|p: (int, int)| turn(p))
    }

    /// `next` is this state after the falling piece is exchanged with the
    /// held one, or held while a canonical piece is spawned when none is held.
    pub open spec fn swapped(self, next: Game) -> bool {
        &&& next.grid() == self.grid()
        &&& next.pos() == spawn_pos()
        &&& next.saved() == Some(self.piece())
        &&& match self.saved() {
            Some(p) => next.piece() == p,
            None => next.piece().is_canonical(),
        }
    }

    /// `next` is this state after the falling piece is locked where it
    /// stands, full rows are cleared and a canonical piece is spawned.
    pub open spec fn locked(self, next: Game) -> bool {
        &&& next.grid() == cleared(self.placed_board())
        &&& next.piece().is_canonical()
        &&& next.pos() == spawn_pos()
        &&& next.saved() == self.saved()
    }

    /// `next` is this state after one tick of gravity: one row down when
    /// the piece fits there, locked otherwise.
    pub open spec fn ticked(self, next: Game) -> bool {
        if self.fits_at(1, 0) {
            &&& next.grid() == self.grid()
            &&& next.piece() == self.piece()
            &&& next.saved() == self.saved()
            &&& next.pos() == (self.pos().0 + 1, self.pos().1)
        } else {
            self.locked(next)
        }
    }

    /// A game with an empty board, a random piece at the spawn anchor and no held piece.
    pub fn new() -> (g: Game)
        ensures
            g.wf(),
            g.grid() == Seq::new(ROWS as nat, |r: int| empty_row()),
            g.piece().is_canonical(),
            g.pos() == spawn_pos(),
            g.saved() is None,
    {
        let mut board: Vec<Vec<usize>> = Vec::new();
        let mut r: usize = 0;
        while r < ROWS
            invariant
                r <= ROWS,
                board@.len() == r,
                forall|i: int| 0 <= i < r ==> (#[trigger] board@[i])@ == empty_row(),
            decreases ROWS - r,
        {
            board.push(new_empty_row());
            r = r + 1;
        }
        let g = Game {
            board,
            current_piece: Piece::random(),
            piece_pos: (0, COLS / 2),
            saved_piece: None,
        };
        proof {
            assert(g.grid() =~= Seq::new(ROWS as nat, |r: int| empty_row()));
        }
        g
    }

    /// Moves the anchor back to the spawn position.
    pub fn reset_piece(&mut self)
        requires
            old(self).wf(),
        ensures
            final(self).wf(),
            final(self).pos() == spawn_pos(),
            final(self).grid() == old(self).grid(),
            final(self).piece() == old(self).piece(),
            final(self).saved() == old(self).saved(),
    {
        proof {
            assert(self.grid()[0].len() == COLS);
        }
        self.piece_pos = (0, self.board[0].len() / 2);
    }

    /// Makes `opt_piece` the falling piece, or a random canonical piece when
    /// it is `None`, and puts it at the spawn anchor.
    pub fn spawn_new_piece(&mut self, opt_piece: Option<Piece>)
        requires
            old(self).wf(),
            opt_piece matches Some(p) ==> p.wf(),
        ensures
            final(self).wf(),
            final(self).pos() == spawn_pos(),
            final(self).grid() == old(self).grid(),
            final(self).saved() == old(self).saved(),
            match opt_piece {
                Some(p) => final(self).piece() == p,
                None => final(self).piece().is_canonical(),
            },
    {
        if let Some(piece) = opt_piece {
            self.current_piece = piece;
        } else {
            self.current_piece = Piece::random();
        }
        self.reset_piece()
    }

    /// Whether the falling piece, shifted by `dx` rows and `dy` columns,
    /// would lie wholly on the board over empty cells.
    pub fn can_move(&self, dx: i32, dy: i32) -> (r: bool)
        requires
            self.wf(),
        ensures
            r == self.fits_at(dx as int, dy as int),
    {
        let row: i64 = self.piece_pos.0 as i64 + dx as i64;
        let col: i64 = self.piece_pos.1 as i64 + dy as i64;
        let mut k: usize = 0;
        while k < 4
            invariant
                self.wf(),
                k <= 4,
                row == self.pos().0 + dx,
                col == self.pos().1 + dy,
                forall|j: int|
                    0 <= j < k ==> free(
                        self.grid(),
                        row + #[trigger] self.piece().cells()[j].0,
                        col + self.piece().cells()[j].1,
                    ),
            decreases 4 - k,
        {
            proof {
                self.current_piece.lemma_cells();
            }
            let (x, y) = self.current_piece.0[k];
            let nx: i64 = row + x as i64;
            let ny: i64 = col + y as i64;
            assert(self.piece().cells()[k as int] == (x as int, y as int));
            if nx < 0 || nx >= self.board.len() as i64 || ny < 0 || ny >= COLS as i64 {
                return false;
            }
            proof {
                assert(self.grid()[nx as int] == self.board@[nx as int]@);
            }
            if self.board[nx as usize][ny as usize] != 0 {
                return false;
            }
            k = k + 1;
        }
        proof {
            self.current_piece.lemma_cells();
        }
        true
    }

    /// Writes the falling piece into the board, clears full rows, and
    /// spawns a random piece at the spawn anchor.
    pub fn lock_piece(&mut self)
        requires
            old(self).wf(),
        ensures
            final(self).wf(),
            old(self).locked(*final(self)),
    {
        let ghost g0 = self.grid();
        let ghost cells = self.piece().cells();
        let ghost row0 = self.pos().0;
        let ghost col0 = self.pos().1;
        proof {
            self.current_piece.lemma_cells();
            assert(g0 =~~= placed_upto(g0, cells, 0, row0, col0));
        }
        let mut k: usize = 0;
        while k < 4
            invariant
                k <= 4,
                self.board@.len() == ROWS,
                self.grid() == placed_upto(g0, cells, k as int, row0, col0),
                forall|r: int| 0 <= r < ROWS ==> (#[trigger] g0[r]).len() == COLS,
                g0.len() == ROWS,
                self.current_piece == old(self).current_piece,
                self.piece_pos == old(self).piece_pos,
                self.saved_piece == old(self).saved_piece,
                cells == self.piece().cells(),
                cells.len() == 4,
                forall|j: int| 0 <= j < 4 ==> #[trigger] cells[j] == (self.current_piece.0[j].0 as int, self.current_piece.0[j].1 as int),
                row0 == self.piece_pos.0,
                col0 == self.piece_pos.1,
                self.piece_pos.0 < ROWS,
                self.piece_pos.1 < COLS,
                self.current_piece.wf(),
            decreases 4 - k,
        {
            let (x, y) = self.current_piece.0[k];
            let bx: i64 = self.piece_pos.0 as i64 + x as i64;
            let by: i64 = self.piece_pos.1 as i64 + y as i64;
            let ghost before = self.grid();
            proof {
                assert(cells[k as int] == (x as int, y as int));
            }
            if bx >= 0 && bx < ROWS as i64 && by >= 0 && by < COLS as i64 {
                proof {
                    assert(self.grid()[bx as int].len() == COLS);
                    assert(self.board@[bx as int]@ == self.grid()[bx as int]);
                }
                self.board[bx as usize].set(by as usize, 1);
                proof {
                    assert(self.grid() =~= before.update(bx as int, before[bx as int].update(by as int, 1)));
                }
            } else {
                assert(self.grid() == before);
            }
            proof {
                let next = placed_upto(g0, cells, k + 1, row0, col0);
                assert forall|r: int, c: int|
                    0 <= r < ROWS && 0 <= c < COLS implies #[trigger] self.grid()[r][c] == next[r][c] by {
                    if r == bx && c == by {
                        assert(covered(cells, k + 1, row0, col0, r, c));
                    } else {
                        if covered(cells, k + 1, row0, col0, r, c) {
                            let j = choose|j: int| 0 <= j < k + 1 && row0 + cells[j].0 == r && col0 + cells[j].1 == c;
                            assert(j != k);
                            assert(covered(cells, k as int, row0, col0, r, c));
                        }
                        assert(self.grid()[r][c] == before[r][c]);
                    }
                }
                assert(self.grid() =~~= next);
            }
            k = k + 1;
        }
        self.remove_full_lines();
        self.spawn_new_piece(None);
    }

    /// Removes every full row and adds empty rows on top until the board
    /// has `ROWS` rows again; the other rows keep their order.
    pub fn remove_full_lines(&mut self)
        requires
            old(self).wf(),
        ensures
            final(self).wf(),
            final(self).grid() == cleared(old(self).grid()),
            final(self).piece() == old(self).piece(),
            final(self).pos() == old(self).pos(),
            final(self).saved() == old(self).saved(),
    {
        let ghost g0 = self.grid();
        let mut rest: Vec<Vec<usize>> = Vec::new();
        std::mem::swap(&mut rest, &mut self.board);
        let mut kept: Vec<Vec<usize>> = Vec::new();
        let ghost mut i: int = 0;
        proof {
            reveal(Seq::filter);
            assert(g0.take(0) =~= Seq::<Seq<usize>>::empty());
            assert(rows_of(rest@) =~= g0.skip(0));
        }
        while rest.len() > 0
            invariant
                0 <= i <= g0.len(),
                g0.len() == ROWS,
                rows_of(rest@) == g0.skip(i),
                rows_of(kept@) == kept_rows(g0.take(i)),
            decreases rest@.len(),
        {
            proof {
                assert(rows_of(rest@).len() == rest@.len());
                assert(i < g0.len());
            }
            let ghost prev = rest@;
            let row = rest.remove(0);
            proof {
                assert(rows_of(prev)[0] == g0.skip(i)[0]);
                assert(row@ == g0[i]);
                assert(rest@ =~= prev.subrange(1, prev.len() as int));
                assert(g0.take(i + 1) =~= g0.take(i).push(g0[i]));
                assert forall|j: int| 0 <= j < rows_of(rest@).len() implies rows_of(rest@)[j] == g0.skip(i + 1)[j] by {
                    assert(rows_of(prev)[j + 1] == g0.skip(i)[j + 1]);
                }
                assert(rows_of(rest@) =~= g0.skip(i + 1));
                lemma_kept_rows_push(g0.take(i), g0[i]);
            }
            if row_has_empty(&row) {
                kept.push(row);
                proof {
                    assert(rows_of(kept@) =~= kept_rows(g0.take(i)).push(g0[i]));
                }
            }
            proof {
                i = i + 1;
            }
        }
        proof {
            assert(g0.take(i) =~= g0);
            g0.lemma_filter_len(|row: Seq<usize>| has_empty(row));
        }
        let mut board: Vec<Vec<usize>> = Vec::new();
        let n_empty: usize = ROWS - kept.len();
        while board.len() < n_empty
            invariant
                board@.len() <= n_empty,
                forall|j: int| 0 <= j < board@.len() ==> (#[trigger] board@[j])@ == empty_row(),
            decreases n_empty - board@.len(),
        {
            board.push(new_empty_row());
        }
        board.append(&mut kept);
        self.board = board;
        proof {
            assert(self.grid() =~= cleared(g0));
            lemma_clear_full_rows(g0);
        }
    }

    /// Whether the falling piece can move one column left.
    pub fn can_move_left(&self) -> (r: bool)
        requires
            self.wf(),
        ensures
            r == self.fits_at(0, -1),
    {
        self.can_move(0, -1)
    }

    /// Whether the falling piece can move one column right.
    pub fn can_move_right(&self) -> (r: bool)
        requires
            self.wf(),
        ensures
            r == self.fits_at(0, 1),
    {
        self.can_move(0, 1)
    }

    /// Whether the falling piece can move one row down.
    pub fn can_move_down(&self) -> (r: bool)
        requires
            self.wf(),
        ensures
            r == self.fits_at(1, 0),
    {
        self.can_move(1, 0)
    }
}


/// The engine's interface to its host: input events, the gravity tick, and
/// read access for rendering.
pub trait TetrisGame: Sized {
    /// The state is consistent.
    spec fn inv(&self) -> bool;

    fn player_input(&mut self, input: PlayerInput)
        requires
            old(self).inv(),
        ensures
            final(self).inv(),
    ;

    fn tick(&mut self)
        requires
            old(self).inv(),
        ensures
            final(self).inv(),
    ;

    fn get_board(&self) -> &Vec<Vec<usize>>;

    fn get_current_piece(&self) -> ((usize, usize), Piece);
}

impl TetrisGame for Game {
    open spec fn inv(&self) -> bool {
        self.wf()
    }

    /// Left and Right shift the anchor by one column when the piece fits
    /// there and do nothing otherwise; Rotate turns the piece without any
    /// check; Swap exchanges the falling piece with the held one (holding
    /// it and spawning a random piece when none is held) and puts the
    /// anchor at the spawn position; Place locks the piece where it is.
    fn player_input(&mut self, input: PlayerInput)
        ensures
            match input {
                PlayerInput::Left => old(self).shifted(*final(self), -1),
                PlayerInput::Right => old(self).shifted(*final(self), 1),
                PlayerInput::Rotate => old(self).turned(*final(self)),
                PlayerInput::Swap => old(self).swapped(*final(self)),
                PlayerInput::Place => old(self).locked(*final(self)),
            },
    {
        proof {
            self.current_piece.lemma_cells();
        }
        match input {
            PlayerInput::Left => {
                if self.can_move_left() {
                    proof {
                        assert(self.piece().cells()[0] == (0int, 0int));
                    }
                    self.piece_pos.1 = self.piece_pos.1 - 1;
                }
            },
            PlayerInput::Right => {
                if self.can_move_right() {
                    proof {
                        assert(self.piece().cells()[0] == (0int, 0int));
                    }
                    self.piece_pos.1 = self.piece_pos.1 + 1;
                }
            },
            PlayerInput::Rotate => self.current_piece = self.current_piece.rotated(),
            PlayerInput::Swap => {
                if let Some(prev) = self.saved_piece {
                    let tmp = self.current_piece;
                    self.current_piece = prev;
                    self.saved_piece = Some(tmp);
                    self.reset_piece()
                } else {
                    self.saved_piece = Some(self.current_piece);
                    self.spawn_new_piece(None);
                }
            },
            PlayerInput::Place => {
                self.lock_piece()
            },
        }
    }

    /// Moves the piece one row down when it fits there, and locks it
    /// where it is otherwise.
    fn tick(&mut self)
        ensures
            old(self).ticked(*final(self)),
    {
        if !self.can_move_down() {
            self.lock_piece()
        } else {
            proof {
                self.current_piece.lemma_cells();
                assert(self.piece().cells()[0] == (0int, 0int));
            }
            self.piece_pos.0 = self.piece_pos.0 + 1;
        }
    }

    /// The board, as rows of cells; 0 is an empty cell.
    fn get_board(&self) -> (r: &Vec<Vec<usize>>)
        ensures
            rows_of(r@) == self.grid(),
    {
        &self.board
    }

    /// The anchor and the falling piece.
    fn get_current_piece(&self) -> (r: ((usize, usize), Piece))
        ensures
            (r.0.0 as int, r.0.1 as int) == self.pos(),
            r.1 == self.piece(),
    {
        (self.piece_pos, self.current_piece)
    }
}

} // verus!
