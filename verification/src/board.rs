//! The game board: a fixed-size square grid of tiles.

use vstd::arithmetic::power2::{lemma2_to64, lemma_pow2_strictly_increases, pow2};
use vstd::prelude::*;

use crate::error::{GameError, GameResult};

verus! {

/// A single tile on the game board.
#[derive(Debug, Clone, Copy, PartialEq, Eq, Structural)]
pub struct Tile {
    /// Tile value: 0 for empty, otherwise a power of two.
    pub value: u32,
}

/// Number of trailing zero bits of a value; for a power of two this is its
/// exponent.
pub open spec fn spec_trailing_zeros(v: u32) -> nat
    decreases v,
{
    if v == 0 {
        32
    } else if v % 2 == 1 {
        0
    } else {
        1 + spec_trailing_zeros(v / 2)
    }
}

impl Tile {
    /// Whether the tile is empty, for use in contracts.
    pub open spec fn spec_is_empty(self) -> bool {
        self.value == 0
    }

    /// Whether two tiles merge: both non-empty, equal values.
    pub open spec fn spec_can_merge_with(self, other: Tile) -> bool {
        !self.spec_is_empty() && !other.spec_is_empty() && self.value == other.value
    }

    /// Create a new empty tile.
    pub fn empty() -> (t: Self)
        ensures
            t.value == 0,
    {
        Self { value: 0 }
    }

    /// Create a new tile with a specific value.
    pub fn new(value: u32) -> (t: Self)
        ensures
            t.value == value,
    {
        Self { value }
    }

    /// Check if the tile is empty.
    pub fn is_empty(&self) -> (r: bool)
        ensures
            r == self.spec_is_empty(),
    {
        self.value == 0
    }

    /// Check if the tile can merge with another tile.
    pub fn can_merge_with(&self, other: &Tile) -> (r: bool)
        ensures
            r == self.spec_can_merge_with(*other),
    {
        !self.is_empty() && !other.is_empty() && self.value == other.value
    }

    /// Merge this tile with another: when they merge, this tile doubles and
    /// the doubled value is returned as the points awarded; otherwise the
    /// tile is unchanged and 0 points are returned. The caller is
    /// responsible for clearing the other tile.
    pub fn merge_with(&mut self, other: &Tile) -> (points: u32)
        requires
            old(self).spec_can_merge_with(*other) ==> old(self).value + other.value <= u32::MAX,
        ensures
            old(self).spec_can_merge_with(*other) ==> final(self).value == 2 * old(self).value
                && points == final(self).value,
            !old(self).spec_can_merge_with(*other) ==> final(self).value == old(self).value
                && points == 0,
    {
        if self.can_merge_with(other) {
            self.value = self.value * 2;
            self.value
        } else {
            0
        }
    }

    /// The color index for UI rendering: the exponent of the tile's value,
    /// or 0 for an empty tile.
    pub fn color_index(&self) -> (r: usize)
        ensures
            self.spec_is_empty() ==> r == 0,
            !self.spec_is_empty() ==> r == spec_trailing_zeros(self.value),
    {
        if self.is_empty() {
            0
        } else {
            let mut v: u32 = self.value;
            let mut c: usize = 0;
            proof {
                lemma2_to64();
                assert(pow2(0) == 1);
            }
            while v % 2 == 0
                invariant
                    v >= 1,
                    c <= 32,
                    v * pow2(c as nat) == self.value,
                    spec_trailing_zeros(self.value) == c + spec_trailing_zeros(v),
                decreases v,
            {
                proof {
                    lemma2_to64();
                    assert(pow2((c + 1) as nat) == 2 * pow2(c as nat)) by {
                        vstd::arithmetic::power2::lemma_pow2_adds(c as nat, 1);
                    }
                    assert((v / 2) * pow2((c + 1) as nat) == v * pow2(c as nat)) by (nonlinear_arith)
                        requires
                            v % 2 == 0,
                            pow2((c + 1) as nat) == 2 * pow2(c as nat),
                    ;
                    if c + 1 > 32 {
                        lemma_pow2_strictly_increases(32, (c + 1) as nat);
                        assert(pow2((c + 1) as nat) > 0x1_0000_0000);
                        assert((v / 2) * pow2((c + 1) as nat) > u32::MAX) by (nonlinear_arith)
                            requires
                                v / 2 >= 1,
                                pow2((c + 1) as nat) > 0x1_0000_0000,
                        ;
                    }
                }
                v = v / 2;
                c = c + 1;
            }
            c
        }
    }
}

/// The tiles of one column of a grid, top to bottom.
pub open spec fn col_of(g: Seq<Seq<u32>>, c: int) -> Seq<u32> {
    Seq::new(g.len(), |i: int| g[i][c])
}

/// How many cells of a row hold the given value.
pub open spec fn row_count(row: Seq<u32>, v: u32) -> int
    decreases row.len(),
{
    if row.len() == 0 {
        0
    } else {
        row_count(row.drop_last(), v) + if row.last() == v {
            1int
        } else {
            0int
        }
    }
}

/// How many cells of a grid hold the given value.
pub open spec fn grid_count(g: Seq<Seq<u32>>, v: u32) -> int
    decreases g.len(),
{
    if g.len() == 0 {
        0
    } else {
        grid_count(g.drop_last(), v) + row_count(g.last(), v)
    }
}

/// Row-major order on board positions.
pub open spec fn pos_before(a: (usize, usize), b: (usize, usize)) -> bool {
    a.0 < b.0 || (a.0 == b.0 && a.1 < b.1)
}

/// Game board: a `size` x `size` grid of tiles, stored row-major.
#[derive(Debug)]
pub struct Board {
    /// The tiles, row-major.
    tiles: Vec<Tile>,
    /// Board size (width = height).
    size: usize,
}

impl Board {
    /// The board size, for use in contracts.
    pub closed spec fn spec_size(&self) -> int {
        self.size as int
    }

    /// The value held at one cell, for use in contracts.
    pub closed spec fn cell(&self, r: int, c: int) -> u32 {
        self.tiles@[r * self.spec_size() + c].value
    }

    /// The whole grid of values, row-major.
    pub open spec fn grid(&self) -> Seq<Seq<u32>> {
        Seq::new(
            self.spec_size() as nat,
            |r: int| Seq::new(self.spec_size() as nat, |c: int| self.cell(r, c)),
        )
    }

    /// The tile storage matches the declared size.
    pub closed spec fn tiles_ok(&self) -> bool {
        self.tiles@.len() == self.spec_size() * self.spec_size()
    }

    /// Structural invariant: positive size, exactly `size * size` tiles.
    pub open spec fn wf(&self) -> bool {
        &&& 1 <= self.spec_size() <= usize::MAX
        &&& self.spec_size() * self.spec_size() <= usize::MAX
        &&& self.tiles_ok()
    }

    /// Whether a position lies on the board.
    pub open spec fn pos_ok(&self, row: int, col: int) -> bool {
        0 <= row < self.spec_size() && 0 <= col < self.spec_size()
    }

    /// Create a new empty board. Fails exactly when `size` is zero.
    pub fn new(size: usize) -> (r: GameResult<Self>)
        requires
            size * size <= usize::MAX,
        ensures
            size == 0 ==> r == GameResult::<Self>::Err(GameError::InvalidBoardSize { size }),
            size >= 1 ==> (r matches Ok(b) && b.wf() && b.spec_size() == size && forall|
                i: int,
                j: int,
            |
                b.pos_ok(i, j) ==> b.cell(i, j) == 0),
    {
        if size == 0 {
            return Err(GameError::InvalidBoardSize { size });
        }
        let total = size * size;
        let mut tiles: Vec<Tile> = Vec::new();
        let mut k: usize = 0;
        while k < total
            invariant
                k <= total,
                tiles@.len() == k,
                forall|q: int| 0 <= q < k ==> tiles@[q].value == 0,
            decreases total - k,
        {
            tiles.push(Tile::empty());
            k += 1;
        }
        let b = Self { tiles, size };
        proof {
            assert forall|i: int, j: int| b.pos_ok(i, j) implies b.cell(i, j) == 0 by {
                lemma_rc_index(size as int, i, j);
            }
        }
        Ok(b)
    }

    /// Get board size.
    pub fn size(&self) -> (r: usize)
        ensures
            r == self.spec_size(),
    {
        self.size
    }

    /// Get the tile at a position. Fails exactly when the position is off
    /// the board.
    pub fn get_tile(&self, row: usize, col: usize) -> (r: GameResult<Tile>)
        requires
            self.wf(),
        ensures
            self.pos_ok(row as int, col as int) ==> r == GameResult::<Tile>::Ok(
                Tile { value: self.cell(row as int, col as int) },
            ),
            !self.pos_ok(row as int, col as int) ==> r == GameResult::<Tile>::Err(
                GameError::InvalidPosition { row, col },
            ),
    {
        if row >= self.size || col >= self.size {
            return Err(GameError::InvalidPosition { row, col });
        }
        proof {
            lemma_rc_index(self.spec_size(), row as int, col as int);
        }
        Ok(self.tiles[row * self.size + col])
    }

    /// Set the tile at a position. Fails exactly when the position is off
    /// the board; every other cell is unchanged.
    pub fn set_tile(&mut self, row: usize, col: usize, tile: Tile) -> (r: GameResult<()>)
        requires
            old(self).wf(),
        ensures
            final(self).wf(),
            final(self).spec_size() == old(self).spec_size(),
            !old(self).pos_ok(row as int, col as int) ==> r == GameResult::<()>::Err(
                GameError::InvalidPosition { row, col },
            ) && *final(self) == *old(self),
            old(self).pos_ok(row as int, col as int) ==> r == GameResult::<()>::Ok(())
                && final(self).cell(row as int, col as int) == tile.value && forall|i: int, j: int|
                final(self).pos_ok(i, j) && !(i == row && j == col) ==> final(self).cell(i, j)
                    == old(self).cell(i, j),
    {
        if row >= self.size || col >= self.size {
            return Err(GameError::InvalidPosition { row, col });
        }
        proof {
            lemma_rc_index(self.spec_size(), row as int, col as int);
        }
        let idx = row * self.size + col;
        self.tiles[idx] = tile;
        proof {
            assert forall|i: int, j: int|
                self.pos_ok(i, j) && !(i == row && j == col) implies self.cell(i, j) == old(
                self,
            ).cell(i, j) by {
                lemma_rc_index(self.spec_size(), i, j);
                lemma_rc_distinct(self.spec_size(), i, j, row as int, col as int);
            }
        }
        Ok(())
    }

    /// Check if a position holds an empty tile.
    pub fn is_empty(&self, row: usize, col: usize) -> (r: GameResult<bool>)
        requires
            self.wf(),
        ensures
            self.pos_ok(row as int, col as int) ==> r == GameResult::<bool>::Ok(
                self.cell(row as int, col as int) == 0,
            ),
            !self.pos_ok(row as int, col as int) ==> r == GameResult::<bool>::Err(
                GameError::InvalidPosition { row, col },
            ),
    {
        match self.get_tile(row, col) {
            Ok(t) => Ok(t.is_empty()),
            Err(e) => Err(e),
        }
    }

    /// All empty positions, in row-major scan order: every listed position
    /// is an empty cell, every empty cell is listed, and the list is
    /// strictly ordered.
    pub fn empty_positions(&self) -> (r: Vec<(usize, usize)>)
        requires
            self.wf(),
        ensures
            forall|k: int| #![auto] 0 <= k < r@.len() ==> self.pos_ok(r@[k].0 as int, r@[k].1 as int)
                && self.cell(r@[k].0 as int, r@[k].1 as int) == 0,
            forall|x: usize, y: usize| #![auto]
                x < self.spec_size() && y < self.spec_size() && self.cell(x as int, y as int) == 0
                    ==> r@.contains((x, y)),
            forall|k1: int, k2: int| 0 <= k1 < k2 < r@.len() ==> pos_before(r@[k1], r@[k2]),
    {
        let mut r: Vec<(usize, usize)> = Vec::new();
        let size = self.size;
        let mut row: usize = 0;
        while row < size
            invariant
                self.wf(),
                size == self.spec_size(),
                row <= size,
                forall|k: int| #![auto] 0 <= k < r@.len() ==> self.pos_ok(r@[k].0 as int, r@[k].1 as int)
                    && self.cell(r@[k].0 as int, r@[k].1 as int) == 0 && r@[k].0 < row,
                forall|x: usize, y: usize| #![auto]
                    x < row && y < size && self.cell(x as int, y as int) == 0 ==> r@.contains(
                        (x, y),
                    ),
                forall|k1: int, k2: int| 0 <= k1 < k2 < r@.len() ==> pos_before(r@[k1], r@[k2]),
            decreases size - row,
        {
            let mut col: usize = 0;
            while col < size
                invariant
                    self.wf(),
                    size == self.spec_size(),
                    row < size,
                    col <= size,
                    forall|k: int| #![auto] 0 <= k < r@.len() ==> self.pos_ok(
                        r@[k].0 as int,
                        r@[k].1 as int,
                    ) && self.cell(r@[k].0 as int, r@[k].1 as int) == 0 && pos_before(
                        r@[k],
                        (row, col),
                    ),
                    forall|x: usize, y: usize| #![auto]
                        (x < row && y < size) || (x == row && y < col) ==> (self.cell(
                            x as int,
                            y as int,
                        ) == 0 ==> r@.contains((x, y))),
                    forall|k1: int, k2: int| 0 <= k1 < k2 < r@.len() ==> pos_before(r@[k1], r@[k2]),
                decreases size - col,
            {
                let t = match self.get_tile(row, col) {
                    Ok(t) => t,
                    Err(_) => Tile::empty(),
                };
                if t.is_empty() {
                    let ghost old_r = r@;
                    r.push((row, col));
                    proof {
                        assert(r@ == old_r.push((row, col)));
                        assert forall|x: usize, y: usize| #![auto]
                            ((x < row && y < size) || (x == row && y < col + 1)) && self.cell(
                                x as int,
                                y as int,
                            ) == 0 implies r@.contains((x, y)) by {
                            if x == row && y == col {
                                assert(r@[r@.len() - 1] == (x, y));
                            } else {
                                assert(old_r.contains((x, y)));
                                let w = choose|w: int| 0 <= w < old_r.len() && old_r[w] == (x, y);
                                assert(r@[w] == (x, y));
                            }
                        }
                    }
                }
                col += 1;
            }
            row += 1;
        }
        r
    }

    /// Check if the board is full (no empty cell).
    pub fn is_full(&self) -> (r: bool)
        requires
            self.wf(),
        ensures
            r == self.spec_full(),
    {
        let e = self.empty_positions();
        let r = e.len() == 0;
        proof {
            if e@.len() > 0 {
                assert(self.cell(e@[0].0 as int, e@[0].1 as int) == 0);
            }
        }
        r
    }

    /// Whether every cell of the board is occupied.
    pub open spec fn spec_full(&self) -> bool {
        forall|i: int, j: int| self.pos_ok(i, j) ==> self.cell(i, j) != 0
    }

    /// Whether any move is possible: an empty cell exists, or two adjacent
    /// cells (right or down neighbor) hold equal non-empty values.
    pub open spec fn spec_has_valid_moves(&self) -> bool {
        ||| !self.spec_full()
        ||| exists|i: int, j: int| #![auto]
            self.pos_ok(i, j) && j + 1 < self.spec_size() && self.cell(i, j) != 0 && self.cell(i, j)
                == self.cell(i, j + 1)
        ||| exists|i: int, j: int| #![auto]
            self.pos_ok(i, j) && i + 1 < self.spec_size() && self.cell(i, j) != 0 && self.cell(i, j)
                == self.cell(i + 1, j)
    }

    /// Terminal test: true exactly when an empty cell exists or some
    /// adjacent pair can merge. Its negation — a full board with no equal
    /// adjacent pair — is the game-over condition.
    pub fn has_valid_moves(&self) -> (r: bool)
        requires
            self.wf(),
        ensures
            r == self.spec_has_valid_moves(),
    {
        if !self.is_full() {
            return true;
        }
        let size = self.size;
        let mut row: usize = 0;
        while row < size
            invariant
                self.wf(),
                size == self.spec_size(),
                row <= size,
                forall|i: int, j: int| #![auto]
                    self.pos_ok(i, j) && i < row && j + 1 < size ==> !(self.cell(i, j) != 0
                        && self.cell(i, j) == self.cell(i, j + 1)),
                forall|i: int, j: int| #![auto]
                    self.pos_ok(i, j) && i < row && i + 1 < size ==> !(self.cell(i, j) != 0
                        && self.cell(i, j) == self.cell(i + 1, j)),
            decreases size - row,
        {
            let mut col: usize = 0;
            while col < size
                invariant
                    self.wf(),
                    size == self.spec_size(),
                    row < size,
                    col <= size,
                    forall|i: int, j: int| #![auto]
                        self.pos_ok(i, j) && i < row && j + 1 < size ==> !(self.cell(i, j) != 0
                            && self.cell(i, j) == self.cell(i, j + 1)),
                    forall|i: int, j: int| #![auto]
                        self.pos_ok(i, j) && i < row && i + 1 < size ==> !(self.cell(i, j) != 0
                            && self.cell(i, j) == self.cell(i + 1, j)),
                    forall|j: int|
                        0 <= j < col && j + 1 < size ==> !(#[trigger] self.cell(row as int, j) != 0
                            && self.cell(row as int, j) == self.cell(row as int, j + 1)),
                    forall|j: int|
                        0 <= j < col && row + 1 < size ==> !(#[trigger] self.cell(row as int, j)
                            != 0 && self.cell(row as int, j) == self.cell(row as int + 1, j)),
                decreases size - col,
            {
                let current = match self.get_tile(row, col) {
                    Ok(t) => t,
                    Err(_) => Tile::empty(),
                };
                if col + 1 < size {
                    let right = match self.get_tile(row, col + 1) {
                        Ok(t) => t,
                        Err(_) => Tile::empty(),
                    };
                    if current.can_merge_with(&right) {
                        return true;
                    }
                }
                if row + 1 < size {
                    let down = match self.get_tile(row + 1, col) {
                        Ok(t) => t,
                        Err(_) => Tile::empty(),
                    };
                    if current.can_merge_with(&down) {
                        return true;
                    }
                }
                col += 1;
            }
            row += 1;
        }
        false
    }

    /// The maximum tile value on the board: no cell exceeds it, and unless
    /// it is 0 some cell attains it.
    pub fn max_tile(&self) -> (r: u32)
        requires
            self.wf(),
        ensures
            forall|i: int, j: int| self.pos_ok(i, j) ==> self.cell(i, j) <= r,
            r == 0 || exists|i: int, j: int| self.pos_ok(i, j) && self.cell(i, j) == r,
    {
        let size = self.size;
        let mut best: u32 = 0;
        let mut row: usize = 0;
        while row < size
            invariant
                self.wf(),
                size == self.spec_size(),
                row <= size,
                forall|i: int, j: int| self.pos_ok(i, j) && i < row ==> self.cell(i, j) <= best,
                best == 0 || exists|i: int, j: int| self.pos_ok(i, j) && self.cell(i, j) == best,
            decreases size - row,
        {
            let mut col: usize = 0;
            while col < size
                invariant
                    self.wf(),
                    size == self.spec_size(),
                    row < size,
                    col <= size,
                    forall|i: int, j: int| self.pos_ok(i, j) && i < row ==> self.cell(i, j) <= best,
                    forall|j: int| 0 <= j < col ==> self.cell(row as int, j) <= best,
                    best == 0 || exists|i: int, j: int| self.pos_ok(i, j) && self.cell(i, j) == best,
                decreases size - col,
            {
                let t = match self.get_tile(row, col) {
                    Ok(t) => t,
                    Err(_) => Tile::empty(),
                };
                if t.value > best {
                    best = t.value;
                    proof {
                        assert(self.pos_ok(row as int, col as int) && self.cell(
                            row as int,
                            col as int,
                        ) == best);
                    }
                }
                col += 1;
            }
            row += 1;
        }
        best
    }

    /// Count the cells holding a specific value.
    pub fn count_tiles(&self, value: u32) -> (r: usize)
        requires
            self.wf(),
        ensures
            r == grid_count(self.grid(), value),
    {
        let size = self.size;
        let mut count: usize = 0;
        let mut row: usize = 0;
        proof {
            assert(self.grid().take(0) =~= Seq::<Seq<u32>>::empty());
        }
        while row < size
            invariant
                self.wf(),
                size == self.spec_size(),
                row <= size,
                count <= row * size,
                count == grid_count(self.grid().take(row as int), value),
            decreases size - row,
        {
            let mut col: usize = 0;
            proof {
                assert(self.grid()[row as int].take(0) =~= Seq::<u32>::empty());
                lemma_mul_bound(row as int, size as int);
            }
            while col < size
                invariant
                    self.wf(),
                    size == self.spec_size(),
                    row < size,
                    col <= size,
                    count <= row * size + col,
                    row * size + size <= size * size <= usize::MAX,
                    count == grid_count(self.grid().take(row as int), value) + row_count(
                        self.grid()[row as int].take(col as int),
                        value,
                    ),
                decreases size - col,
            {
                let t = match self.get_tile(row, col) {
                    Ok(t) => t,
                    Err(_) => Tile::empty(),
                };
                proof {
                    let prow = self.grid()[row as int];
                    assert(prow.take(col as int + 1).drop_last() =~= prow.take(col as int));
                    assert(prow.take(col as int + 1).last() == prow[col as int]);
                }
                if t.value == value {
                    count += 1;
                }
                col += 1;
            }
            proof {
                let g = self.grid();
                assert(g.take(row as int + 1).drop_last() =~= g.take(row as int));
                assert(g.take(row as int + 1).last() == g[row as int]);
                assert(g[row as int].take(size as int) =~= g[row as int]);
                assert((row + 1) * size == row * size + size) by (nonlinear_arith);
            }
            row += 1;
        }
        proof {
            assert(self.grid().take(size as int) =~= self.grid());
        }
        count
    }

    /// A deep copy of the board.
    pub fn clone(&self) -> (r: Self)
        ensures
            r.spec_size() == self.spec_size(),
            r.grid() == self.grid(),
            r.wf() == self.wf(),
    {
        let mut tiles: Vec<Tile> = Vec::new();
        let mut k: usize = 0;
        while k < self.tiles.len()
            invariant
                k <= self.tiles@.len(),
                tiles@.len() == k,
                forall|q: int| 0 <= q < k ==> tiles@[q] == self.tiles@[q],
            decreases self.tiles@.len() - k,
        {
            tiles.push(self.tiles[k]);
            k += 1;
        }
        let r = Self { tiles, size: self.size };
        proof {
            assert(r.tiles@ =~= self.tiles@);
            assert(r.grid() =~~= self.grid());
        }
        r
    }

    /// The board as a row-major grid of plain values.
    pub fn to_vec(&self) -> (r: Vec<Vec<u32>>)
        requires
            self.wf(),
        ensures
            r@.len() == self.spec_size(),
            forall|i: int| 0 <= i < r@.len() ==> r@[i]@ == self.grid()[i],
    {
        let size = self.size;
        let mut r: Vec<Vec<u32>> = Vec::new();
        let mut row: usize = 0;
        while row < size
            invariant
                self.wf(),
                size == self.spec_size(),
                row <= size,
                r@.len() == row,
                forall|i: int| 0 <= i < row ==> r@[i]@ == self.grid()[i],
            decreases size - row,
        {
            let line = self.row_vec(row);
            r.push(line);
            row += 1;
        }
        r
    }

    /// One row of the board as plain values.
    pub(crate) fn row_vec(&self, row: usize) -> (r: Vec<u32>)
        requires
            self.wf(),
            row < self.spec_size(),
        ensures
            r@ == self.grid()[row as int],
    {
        let size = self.size;
        let mut r: Vec<u32> = Vec::new();
        let mut col: usize = 0;
        while col < size
            invariant
                self.wf(),
                size == self.spec_size(),
                row < size,
                col <= size,
                r@.len() == col,
                forall|j: int| 0 <= j < col ==> r@[j] == self.cell(row as int, j),
            decreases size - col,
        {
            let t = match self.get_tile(row, col) {
                Ok(t) => t,
                Err(_) => Tile::empty(),
            };
            r.push(t.value);
            col += 1;
        }
        proof {
            assert(r@ =~= self.grid()[row as int]);
        }
        r
    }

    /// One column of the board as plain values.
    pub(crate) fn col_vec(&self, col: usize) -> (r: Vec<u32>)
        requires
            self.wf(),
            col < self.spec_size(),
        ensures
            r@ == col_of(self.grid(), col as int),
    {
        let size = self.size;
        let mut r: Vec<u32> = Vec::new();
        let mut row: usize = 0;
        while row < size
            invariant
                self.wf(),
                size == self.spec_size(),
                col < size,
                row <= size,
                r@.len() == row,
                forall|i: int| 0 <= i < row ==> r@[i] == self.cell(i, col as int),
            decreases size - row,
        {
            let t = match self.get_tile(row, col) {
                Ok(t) => t,
                Err(_) => Tile::empty(),
            };
            r.push(t.value);
            row += 1;
        }
        proof {
            assert(r@ =~= col_of(self.grid(), col as int));
        }
        r
    }

    /// Replace one row of the board.
    pub(crate) fn set_row(&mut self, row: usize, vals: &Vec<u32>)
        requires
            old(self).wf(),
            row < old(self).spec_size(),
            vals@.len() == old(self).spec_size(),
        ensures
            final(self).wf(),
            final(self).spec_size() == old(self).spec_size(),
            forall|i: int, j: int| #![auto]
                final(self).pos_ok(i, j) ==> final(self).cell(i, j) == if i == row {
                    vals@[j]
                } else {
                    old(self).cell(i, j)
                },
    {
        let size = self.size;
        let mut col: usize = 0;
        while col < size
            invariant
                self.wf(),
                size == self.spec_size(),
                self.spec_size() == old(self).spec_size(),
                row < size,
                col <= size,
                vals@.len() == size,
                forall|i: int, j: int| #![auto]
                    self.pos_ok(i, j) ==> self.cell(i, j) == if i == row && j < col {
                        vals@[j]
                    } else {
                        old(self).cell(i, j)
                    },
            decreases size - col,
        {
            let res = self.set_tile(row, col, Tile::new(vals[col]));
            proof {
                assert(res is Ok);
            }
            col += 1;
        }
    }

    /// Replace one column of the board.
    pub(crate) fn set_col(&mut self, col: usize, vals: &Vec<u32>)
        requires
            old(self).wf(),
            col < old(self).spec_size(),
            vals@.len() == old(self).spec_size(),
        ensures
            final(self).wf(),
            final(self).spec_size() == old(self).spec_size(),
            forall|i: int, j: int| #![auto]
                final(self).pos_ok(i, j) ==> final(self).cell(i, j) == if j == col {
                    vals@[i]
                } else {
                    old(self).cell(i, j)
                },
    {
        let size = self.size;
        let mut row: usize = 0;
        while row < size
            invariant
                self.wf(),
                size == self.spec_size(),
                self.spec_size() == old(self).spec_size(),
                col < size,
                row <= size,
                vals@.len() == size,
                forall|i: int, j: int| #![auto]
                    self.pos_ok(i, j) ==> self.cell(i, j) == if j == col && i < row {
                        vals@[i]
                    } else {
                        old(self).cell(i, j)
                    },
            decreases size - row,
        {
            let res = self.set_tile(row, col, Tile::new(vals[row]));
            proof {
                assert(res is Ok);
            }
            row += 1;
        }
    }
}

/// A position inside the board maps to an index inside the tile vector.
proof fn lemma_rc_index(size: int, r: int, c: int)
    by (nonlinear_arith)
    requires
        0 <= r < size,
        0 <= c < size,
    ensures
        0 <= r * size + c < size * size,
{
}

/// Distinct positions map to distinct indices.
proof fn lemma_rc_distinct(size: int, r1: int, c1: int, r2: int, c2: int)
    by (nonlinear_arith)
    requires
        0 <= r1 < size,
        0 <= c1 < size,
        0 <= r2 < size,
        0 <= c2 < size,
        !(r1 == r2 && c1 == c2),
    ensures
        r1 * size + c1 != r2 * size + c2,
{
}

/// Row prefixes stay inside the tile allocation.
proof fn lemma_mul_bound(r: int, size: int)
    by (nonlinear_arith)
    requires
        0 <= r < size,
    ensures
        r * size + size <= size * size,
{
}

} // verus!
