//! Computer move selection: greedy, expectimax, and Monte Carlo tree
//! search, all working on cloned game states.
//!
//! The board evaluation heuristic is fixed-point arithmetic in tenths of a
//! point (the positional weights are 4.0 / 2.0 / 1.0, the scattering
//! penalty 0.5 per small tile, and the smoothness penalty 0.1 per unit of
//! difference, so every term is a whole number of tenths); search values
//! are `i128` tenths throughout.

use vstd::arithmetic::power2::{lemma2_to64, pow2};
use vstd::prelude::*;

use crate::board::{Board, Tile};
use crate::error::{GameError, GameResult};
use crate::game::{after_move, make_move_post, move_gains, spawn_rel, zero_grid, Direction, Game, GameState};
use crate::line::seq_sum;
use crate::score::spec_sat_add;
use crate::GameConfig;

verus! {

broadcast use vstd::std_specs::vec::axiom_vec_index_decreases;

/// AI algorithm types.
#[derive(Debug, Clone, Copy, PartialEq, Eq, Structural)]
pub enum AIAlgorithm {
    /// Pick the single move with the best immediate score.
    Greedy,
    /// Depth-limited expectation search over moves and tile spawns.
    Expectimax,
    /// Monte Carlo tree search with UCB1 selection.
    MCTS,
}

/// Positional weight of a cell, in tenths: corners of the fixed 4 x 4
/// weight matrix count 4.0, its other edge cells 2.0, everything else
/// (its interior, and any cell beyond it on larger boards) 1.0.
pub open spec fn weight10(r: int, c: int) -> int {
    if 0 <= r < 4 && 0 <= c < 4 {
        if (r == 0 || r == 3) && (c == 0 || c == 3) {
            40
        } else if r == 0 || r == 3 || c == 0 || c == 3 {
            20
        } else {
            10
        }
    } else {
        10
    }
}

/// Position-weighted value of one row, in tenths; empty cells contribute
/// nothing.
pub open spec fn row_weighted(row: Seq<u32>, r: int) -> int
    decreases row.len(),
{
    if row.len() == 0 {
        0
    } else {
        row_weighted(row.drop_last(), r) + if row.last() != 0 {
            row.last() * weight10(r, row.len() - 1)
        } else {
            0
        }
    }
}

/// Position-weighted value of the whole grid, in tenths.
pub open spec fn grid_weighted(g: Seq<Seq<u32>>) -> int
    decreases g.len(),
{
    if g.len() == 0 {
        0
    } else {
        grid_weighted(g.drop_last()) + row_weighted(g.last(), g.len() - 1)
    }
}

/// Corner contribution of one cell, in tenths: twice the value of a
/// non-empty corner tile.
pub open spec fn corner_val(g: Seq<Seq<u32>>, r: int, c: int) -> int {
    if 0 <= r < g.len() && 0 <= c < g[r].len() && g[r][c] != 0 {
        g[r][c] * 20
    } else {
        0
    }
}

/// Bonus for keeping values in the four corners, in tenths. On a
/// one-cell board the four corners coincide and the cell counts four
/// times, as the four-corner sum has it.
pub open spec fn corner_bonus10(g: Seq<Seq<u32>>) -> int {
    let n = g.len() as int;
    corner_val(g, 0, 0) + corner_val(g, 0, n - 1) + corner_val(g, n - 1, 0) + corner_val(
        g,
        n - 1,
        n - 1,
    )
}

/// How many cells of a row hold a small tile (non-empty, value at most 8).
pub open spec fn row_small_count(row: Seq<u32>) -> int
    decreases row.len(),
{
    if row.len() == 0 {
        0
    } else {
        row_small_count(row.drop_last()) + if row.last() != 0 && row.last() <= 8 {
            1int
        } else {
            0int
        }
    }
}

/// How many cells of the grid hold a small tile.
pub open spec fn grid_small_count(g: Seq<Seq<u32>>) -> int
    decreases g.len(),
{
    if g.len() == 0 {
        0
    } else {
        grid_small_count(g.drop_last()) + row_small_count(g.last())
    }
}

/// Absolute difference of two tile values.
pub open spec fn abs_diff(a: u32, b: u32) -> int {
    if a >= b {
        a - b
    } else {
        b - a
    }
}

/// Contribution of one adjacent pair to the smoothness term: the absolute
/// difference when both tiles are occupied.
pub open spec fn pair_diff(a: u32, b: u32) -> int {
    if a != 0 && b != 0 {
        abs_diff(a, b)
    } else {
        0
    }
}

/// Total difference over the horizontally adjacent pairs of one row.
pub open spec fn row_hdiff(row: Seq<u32>) -> int
    decreases row.len(),
{
    if row.len() < 2 {
        0
    } else {
        row_hdiff(row.drop_last()) + pair_diff(row[row.len() - 2], row.last())
    }
}

/// Total difference over all horizontally adjacent pairs of the grid.
pub open spec fn grid_hdiff(g: Seq<Seq<u32>>) -> int
    decreases g.len(),
{
    if g.len() == 0 {
        0
    } else {
        grid_hdiff(g.drop_last()) + row_hdiff(g.last())
    }
}

/// Total difference between two stacked rows, cell by cell.
pub open spec fn rows_vdiff(a: Seq<u32>, b: Seq<u32>) -> int
    decreases a.len(),
{
    if a.len() == 0 || b.len() == 0 {
        0
    } else {
        rows_vdiff(a.drop_last(), b.drop_last()) + pair_diff(a.last(), b.last())
    }
}

/// Total difference over all vertically adjacent pairs of the grid.
pub open spec fn grid_vdiff(g: Seq<Seq<u32>>) -> int
    decreases g.len(),
{
    if g.len() < 2 {
        0
    } else {
        grid_vdiff(g.drop_last()) + rows_vdiff(g[g.len() - 2], g.last())
    }
}

/// The static board evaluation, in tenths of a point: position-weighted
/// tile values, plus the corner bonus, minus half a point per scattered
/// small tile, minus a tenth of a point per unit of difference between
/// adjacent occupied tiles.
pub open spec fn eval10(g: Seq<Seq<u32>>) -> int {
    grid_weighted(g) + corner_bonus10(g) - 5 * grid_small_count(g) - grid_hdiff(g) - grid_vdiff(g)
}

/// A magnitude every evaluation term stays within (2^112); four of them
/// still fit an `i128` comfortably.
pub open spec fn eval_part_bound() -> int {
    0x1_0000_0000_0000_0000_0000_0000_0000
}

/// Relies on `rand::random`: draws a value from the thread-local
/// generator. Nothing is promised of the draw.
pub assume_specification<T>[ rand::random::<T> ]() -> (r: T)
    where
        rand::distributions::Standard: rand::distributions::Distribution<T>,
;

/// The current score a single move in the given direction would reach.
pub open spec fn dir_score(g: Seq<Seq<u32>>, cur: u32, d: Direction) -> u32 {
    spec_sat_add(cur, seq_sum(move_gains(g, d)))
}

/// What probing one direction on a snapshot yields: the score reached, or
/// nothing when the game is over or the move would change nothing.
pub open spec fn probe_res(g: Seq<Seq<u32>>, cur: u32, playing: bool, d: Direction) -> Option<
    u32,
> {
    if playing && after_move(g, d) != g {
        Some(dir_score(g, cur, d))
    } else {
        None
    }
}

/// One step of the greedy fold: keep the candidate only when it strictly
/// beats the best score so far.
pub open spec fn gstep(s: (u32, Direction), pr: Option<u32>, d: Direction) -> (u32, Direction) {
    match pr {
        Some(v) => if v > s.0 {
            (v, d)
        } else {
            s
        },
        None => s,
    }
}

/// The greedy fold over the four directions in the fixed trial order
/// Up, Down, Left, Right, starting from score 0 and fallback Up.
pub open spec fn greedy_pair(g: Seq<Seq<u32>>, cur: u32, playing: bool) -> (u32, Direction) {
    let s0 = (0u32, Direction::Up);
    let s1 = gstep(s0, probe_res(g, cur, playing, Direction::Up), Direction::Up);
    let s2 = gstep(s1, probe_res(g, cur, playing, Direction::Down), Direction::Down);
    let s3 = gstep(s2, probe_res(g, cur, playing, Direction::Left), Direction::Left);
    gstep(s3, probe_res(g, cur, playing, Direction::Right), Direction::Right)
}

/// The direction the greedy strategy picks on a live game: the first
/// direction whose resulting current score is strictly the largest among
/// the moves that change something; Up when no move does.
pub open spec fn greedy_choice(g: Seq<Seq<u32>>, cur: u32) -> Direction {
    greedy_pair(g, cur, true).1
}

/// Try one direction on a snapshot of the game: the current score after
/// the move if it moved anything, `None` otherwise.
fn probe_direction(game: &Game, d: Direction) -> (r: Option<u32>)
    requires
        game.wf(),
    ensures
        r == probe_res(
            game.grid(),
            game.spec_score().spec_current(),
            game.spec_state() == GameState::Playing,
            d,
        ),
{
    let mut copy = game.clone();
    match copy.make_move(d) {
        Ok(true) => Some(copy.score().current()),
        Ok(false) => None,
        Err(_) => None,
    }
}

/// Clamp-and-add for accumulated search values: the result always lies
/// within 2^110 in magnitude, so sums of evaluations never overflow.
fn clamped_add(a: i128, b: i128) -> (r: i128)
    ensures
        -0x4000_0000_0000_0000_0000_0000_0000i128 <= r
            <= 0x4000_0000_0000_0000_0000_0000_0000i128,
{
    clamp_score(clamp_score(a) + clamp_score(b))
}

/// Clamp a search value into the range accumulated totals stay within
/// (2^110); a value already in range passes through unchanged.
fn clamp_score(x: i128) -> (r: i128)
    ensures
        -0x4000_0000_0000_0000_0000_0000_0000i128 <= r
            <= 0x4000_0000_0000_0000_0000_0000_0000i128,
        (-0x4000_0000_0000_0000_0000_0000_0000i128 <= x
            <= 0x4000_0000_0000_0000_0000_0000_0000i128) ==> r == x,
        r == spec_clamp(x as int),
{
    let lim: i128 = 0x4000_0000_0000_0000_0000_0000_0000;
    if x > lim {
        lim
    } else if x < -lim {
        -lim
    } else {
        x
    }
}

/// AI player: a fixed strategy with its search depth and simulation
/// budget. Stateless across calls; it holds no game reference.
#[derive(Debug, Clone, Copy)]
pub struct AIPlayer {
    algorithm: AIAlgorithm,
    max_depth: usize,
    simulation_count: usize,
}

impl AIPlayer {
    /// The strategy, for use in contracts.
    pub closed spec fn spec_algorithm(&self) -> AIAlgorithm {
        self.algorithm
    }

    /// The search depth, for use in contracts.
    pub closed spec fn spec_max_depth(&self) -> int {
        self.max_depth as int
    }

    /// The simulation budget, for use in contracts.
    pub closed spec fn spec_simulation_count(&self) -> int {
        self.simulation_count as int
    }

    /// Create a new AI player with the defaults of its strategy.
    pub fn new(algorithm: AIAlgorithm) -> (p: Self)
        ensures
            p.spec_algorithm() == algorithm,
            p.spec_max_depth() == match algorithm {
                AIAlgorithm::Greedy => 1int,
                AIAlgorithm::Expectimax => 4int,
                AIAlgorithm::MCTS => 1000int,
            },
            p.spec_simulation_count() == match algorithm {
                AIAlgorithm::Greedy => 1int,
                AIAlgorithm::Expectimax => 1int,
                AIAlgorithm::MCTS => 100int,
            },
    {
        let max_depth = match algorithm {
            AIAlgorithm::Greedy => 1,
            AIAlgorithm::Expectimax => 4,
            AIAlgorithm::MCTS => 1000,
        };
        let simulation_count = match algorithm {
            AIAlgorithm::Greedy => 1,
            AIAlgorithm::Expectimax => 1,
            AIAlgorithm::MCTS => 100,
        };
        Self { algorithm, max_depth, simulation_count }
    }

    /// Set the maximum search depth.
    pub fn with_max_depth(self, depth: usize) -> (p: Self)
        ensures
            p.spec_algorithm() == self.spec_algorithm(),
            p.spec_max_depth() == depth,
            p.spec_simulation_count() == self.spec_simulation_count(),
    {
        Self { max_depth: depth, ..self }
    }

    /// Set the number of simulations.
    pub fn with_simulation_count(self, count: usize) -> (p: Self)
        ensures
            p.spec_algorithm() == self.spec_algorithm(),
            p.spec_max_depth() == self.spec_max_depth(),
            p.spec_simulation_count() == count,
    {
        Self { simulation_count: count, ..self }
    }

    /// The static evaluation of a board, in tenths of a point.
    fn evaluate_board(&self, board: &Board) -> (r: i128)
        requires
            board.wf(),
        ensures
            r == eval10(board.grid()),
            -3 * eval_part_bound() <= r <= 2 * eval_part_bound(),
    {
        let w = self.weighted_sum(board);
        let cb = self.corner_bonus(board);
        let sp = self.scattered_penalty(board);
        let sb = self.smoothness_bonus(board);
        w + cb - sp + sb
    }

    /// The position-weighted tile sum, in tenths.
    fn weighted_sum(&self, board: &Board) -> (r: i128)
        requires
            board.wf(),
        ensures
            r == grid_weighted(board.grid()),
            0 <= r <= eval_part_bound(),
    {
        let ghost g = board.grid();
        let size = board.size();
        let mut acc: i128 = 0;
        let mut row: usize = 0;
        proof {
            assert(g.take(0) =~= Seq::<Seq<u32>>::empty());
        }
        while row < size
            invariant
                board.wf(),
                g == board.grid(),
                size == board.spec_size(),
                row <= size,
                acc == grid_weighted(g.take(row as int)),
                0 <= acc <= (row * size) * 0x40_0000_0000,
                row * size <= size * size,
            decreases size - row,
        {
            let mut col: usize = 0;
            proof {
                assert(g[row as int].take(0) =~= Seq::<u32>::empty());
                assert(row * size + size <= size * size) by (nonlinear_arith)
                    requires
                        0 <= row < size,
                ;
            }
            while col < size
                invariant
                    board.wf(),
                    g == board.grid(),
                    size == board.spec_size(),
                    row < size,
                    col <= size,
                    acc == grid_weighted(g.take(row as int)) + row_weighted(
                        g[row as int].take(col as int),
                        row as int,
                    ),
                    0 <= acc <= (row * size + col) * 0x40_0000_0000,
                    row * size + size <= size * size <= usize::MAX,
                decreases size - col,
            {
                let t = match board.get_tile(row, col) {
                    Ok(t) => t,
                    Err(_) => Tile::empty(),
                };
                let x: i128 = if t.value != 0 {
                    let w = self.weight_of(row, col);
                    proof {
                        assert(0 <= (t.value as i128) * w <= 0x40_0000_0000) by (nonlinear_arith)
                            requires
                                0 <= t.value <= 0xFFFF_FFFF,
                                10 <= w <= 40,
                        ;
                    }
                    (t.value as i128) * w
                } else {
                    0
                };
                proof {
                    let prow = g[row as int];
                    assert(prow.take(col as int + 1).drop_last() =~= prow.take(col as int));
                    assert(prow.take(col as int + 1).last() == prow[col as int]);
                    assert(acc <= 0xFFFF_FFFF_FFFF_FFFFi128 * 0x40_0000_0000) by (nonlinear_arith)
                        requires
                            0 <= acc <= (row * size + col) * 0x40_0000_0000,
                            0 <= row * size + col <= 0xFFFF_FFFF_FFFF_FFFF,
                    ;
                }
                acc = acc + x;
                col += 1;
            }
            proof {
                assert(g.take(row as int + 1).drop_last() =~= g.take(row as int));
                assert(g.take(row as int + 1).last() == g[row as int]);
                assert(g[row as int].take(size as int) =~= g[row as int]);
                assert((row + 1) * size == row * size + size) by (nonlinear_arith);
            }
            row += 1;
        }
        proof {
            assert(g.take(size as int) =~= g);
            assert((size * size) * 0x40_0000_0000 <= eval_part_bound()) by (nonlinear_arith)
                requires
                    0 <= size * size <= 0xFFFF_FFFF_FFFF_FFFF,
                    eval_part_bound() == 0x1_0000_0000_0000_0000_0000_0000_0000,
            ;
        }
        acc
    }

    /// The positional weight of a cell, in tenths.
    fn weight_of(&self, r: usize, c: usize) -> (w: i128)
        ensures
            w == weight10(r as int, c as int),
            10 <= w <= 40,
    {
        if r < 4 && c < 4 {
            if (r == 0 || r == 3) && (c == 0 || c == 3) {
                40
            } else if r == 0 || r == 3 || c == 0 || c == 3 {
                20
            } else {
                10
            }
        } else {
            10
        }
    }

    /// Bonus for keeping values in the corners, in tenths.
    fn corner_bonus(&self, board: &Board) -> (r: i128)
        requires
            board.wf(),
        ensures
            r == corner_bonus10(board.grid()),
            0 <= r <= eval_part_bound(),
    {
        let size = board.size();
        let ghost g = board.grid();
        let ghost n = g.len() as int;
        let mut bonus: i128 = 0;
        let t00 = match board.get_tile(0, 0) {
            Ok(t) => t,
            Err(_) => Tile::empty(),
        };
        if t00.value != 0 {
            bonus = bonus + (t00.value as i128) * 20;
        }
        proof {
            assert(bonus == corner_val(g, 0, 0));
        }
        let t01 = match board.get_tile(0, size - 1) {
            Ok(t) => t,
            Err(_) => Tile::empty(),
        };
        if t01.value != 0 {
            bonus = bonus + (t01.value as i128) * 20;
        }
        proof {
            assert(bonus == corner_val(g, 0, 0) + corner_val(g, 0, n - 1));
        }
        let t10 = match board.get_tile(size - 1, 0) {
            Ok(t) => t,
            Err(_) => Tile::empty(),
        };
        if t10.value != 0 {
            bonus = bonus + (t10.value as i128) * 20;
        }
        proof {
            assert(bonus == corner_val(g, 0, 0) + corner_val(g, 0, n - 1) + corner_val(g, n - 1, 0));
        }
        let t11 = match board.get_tile(size - 1, size - 1) {
            Ok(t) => t,
            Err(_) => Tile::empty(),
        };
        if t11.value != 0 {
            bonus = bonus + (t11.value as i128) * 20;
        }
        bonus
    }

    /// Penalty for scattered small tiles, in tenths: five per non-empty
    /// tile of value at most 8.
    fn scattered_penalty(&self, board: &Board) -> (r: i128)
        requires
            board.wf(),
        ensures
            r == 5 * grid_small_count(board.grid()),
            0 <= r <= eval_part_bound(),
    {
        let ghost g = board.grid();
        let size = board.size();
        let mut small: usize = 0;
        let mut row: usize = 0;
        proof {
            assert(g.take(0) =~= Seq::<Seq<u32>>::empty());
        }
        while row < size
            invariant
                board.wf(),
                g == board.grid(),
                size == board.spec_size(),
                row <= size,
                small == grid_small_count(g.take(row as int)),
                small <= row * size,
                row * size <= size * size,
            decreases size - row,
        {
            let mut col: usize = 0;
            proof {
                assert(g[row as int].take(0) =~= Seq::<u32>::empty());
                assert(row * size + size <= size * size) by (nonlinear_arith)
                    requires
                        0 <= row < size,
                ;
            }
            while col < size
                invariant
                    board.wf(),
                    g == board.grid(),
                    size == board.spec_size(),
                    row < size,
                    col <= size,
                    small == grid_small_count(g.take(row as int)) + row_small_count(
                        g[row as int].take(col as int),
                    ),
                    small <= row * size + col,
                    row * size + size <= size * size <= usize::MAX,
                decreases size - col,
            {
                let t = match board.get_tile(row, col) {
                    Ok(t) => t,
                    Err(_) => Tile::empty(),
                };
                proof {
                    let prow = g[row as int];
                    assert(prow.take(col as int + 1).drop_last() =~= prow.take(col as int));
                    assert(prow.take(col as int + 1).last() == prow[col as int]);
                }
                if t.value != 0 && t.value <= 8 {
                    small += 1;
                }
                col += 1;
            }
            proof {
                assert(g.take(row as int + 1).drop_last() =~= g.take(row as int));
                assert(g.take(row as int + 1).last() == g[row as int]);
                assert(g[row as int].take(size as int) =~= g[row as int]);
                assert((row + 1) * size == row * size + size) by (nonlinear_arith);
            }
            row += 1;
        }
        proof {
            assert(g.take(size as int) =~= g);
        }
        5 * (small as i128)
    }

    /// Smoothness term, in tenths: minus the absolute difference of every
    /// horizontally or vertically adjacent pair of occupied tiles. A
    /// penalty despite the name.
    fn smoothness_bonus(&self, board: &Board) -> (r: i128)
        requires
            board.wf(),
        ensures
            r == -grid_hdiff(board.grid()) - grid_vdiff(board.grid()),
            -2 * eval_part_bound() <= r <= 0,
    {
        let ghost g = board.grid();
        let size = board.size();
        let mut hacc: i128 = 0;
        let mut row: usize = 0;
        proof {
            assert(g.take(0) =~= Seq::<Seq<u32>>::empty());
        }
        while row < size
            invariant
                board.wf(),
                g == board.grid(),
                size == board.spec_size(),
                row <= size,
                hacc == grid_hdiff(g.take(row as int)),
                0 <= hacc <= (row * size) * 0x1_0000_0000,
                row * size <= size * size,
            decreases size - row,
        {
            let mut col: usize = 0;
            proof {
                assert(row * size + size <= size * size) by (nonlinear_arith)
                    requires
                        0 <= row < size,
                ;
                assert(g[row as int].take(1).len() < 2);
            }
            while col + 1 < size
                invariant
                    board.wf(),
                    g == board.grid(),
                    size == board.spec_size(),
                    row < size,
                    col + 1 <= size,
                    hacc == grid_hdiff(g.take(row as int)) + row_hdiff(
                        g[row as int].take(col as int + 1),
                    ),
                    0 <= hacc <= (row * size + col) * 0x1_0000_0000,
                    row * size + size <= size * size <= usize::MAX,
                decreases size - col,
            {
                let a = match board.get_tile(row, col) {
                    Ok(t) => t,
                    Err(_) => Tile::empty(),
                };
                let b = match board.get_tile(row, col + 1) {
                    Ok(t) => t,
                    Err(_) => Tile::empty(),
                };
                let d: i128 = if a.value != 0 && b.value != 0 {
                    if a.value >= b.value {
                        (a.value as i128) - (b.value as i128)
                    } else {
                        (b.value as i128) - (a.value as i128)
                    }
                } else {
                    0
                };
                proof {
                    let prow = g[row as int];
                    assert(prow.take(col as int + 2).drop_last() =~= prow.take(col as int + 1));
                    assert(prow.take(col as int + 2).last() == prow[col as int + 1]);
                    assert(prow.take(col as int + 2)[col as int] == prow[col as int]);
                    assert(hacc <= 0xFFFF_FFFF_FFFF_FFFFi128 * 0x1_0000_0000) by (nonlinear_arith)
                        requires
                            0 <= hacc <= (row * size + col) * 0x1_0000_0000,
                            0 <= row * size + col <= 0xFFFF_FFFF_FFFF_FFFF,
                    ;
                }
                hacc = hacc + d;
                col += 1;
            }
            proof {
                assert(g.take(row as int + 1).drop_last() =~= g.take(row as int));
                assert(g.take(row as int + 1).last() == g[row as int]);
                if size == 1 {
                    assert(g[row as int].take(1) =~= g[row as int]);
                } else {
                    assert(g[row as int].take(size as int) =~= g[row as int]);
                }
                assert((row + 1) * size == row * size + size) by (nonlinear_arith);
            }
            row += 1;
        }
        proof {
            assert(g.take(size as int) =~= g);
            assert((size * size) * 0x1_0000_0000 <= eval_part_bound()) by (nonlinear_arith)
                requires
                    0 <= size * size <= 0xFFFF_FFFF_FFFF_FFFF,
                    eval_part_bound() == 0x1_0000_0000_0000_0000_0000_0000_0000,
            ;
        }
        let mut vacc: i128 = 0;
        let mut vrow: usize = 0;
        while vrow + 1 < size
            invariant
                board.wf(),
                g == board.grid(),
                size == board.spec_size(),
                vrow + 1 <= size || vrow == 0,
                vrow < size,
                vacc == grid_vdiff(g.take(vrow as int + 1)),
                0 <= vacc <= (vrow * size) * 0x1_0000_0000,
                vrow * size <= size * size,
            decreases size - vrow,
        {
            let mut col: usize = 0;
            proof {
                assert(g[vrow as int].take(0) =~= Seq::<u32>::empty());
                assert(g[vrow as int + 1].take(0) =~= Seq::<u32>::empty());
                assert(vrow * size + size <= size * size) by (nonlinear_arith)
                    requires
                        0 <= vrow < size,
                ;
            }
            while col < size
                invariant
                    board.wf(),
                    g == board.grid(),
                    size == board.spec_size(),
                    vrow + 1 < size,
                    col <= size,
                    vacc == grid_vdiff(g.take(vrow as int + 1)) + rows_vdiff(
                        g[vrow as int].take(col as int),
                        g[vrow as int + 1].take(col as int),
                    ),
                    0 <= vacc <= (vrow * size + col) * 0x1_0000_0000,
                    vrow * size + size <= size * size <= usize::MAX,
                decreases size - col,
            {
                let a = match board.get_tile(vrow, col) {
                    Ok(t) => t,
                    Err(_) => Tile::empty(),
                };
                let b = match board.get_tile(vrow + 1, col) {
                    Ok(t) => t,
                    Err(_) => Tile::empty(),
                };
                let d: i128 = if a.value != 0 && b.value != 0 {
                    if a.value >= b.value {
                        (a.value as i128) - (b.value as i128)
                    } else {
                        (b.value as i128) - (a.value as i128)
                    }
                } else {
                    0
                };
                proof {
                    let pa = g[vrow as int];
                    let pb = g[vrow as int + 1];
                    assert(pa.take(col as int + 1).drop_last() =~= pa.take(col as int));
                    assert(pb.take(col as int + 1).drop_last() =~= pb.take(col as int));
                    assert(pa.take(col as int + 1).last() == pa[col as int]);
                    assert(pb.take(col as int + 1).last() == pb[col as int]);
                    assert(vacc <= 0xFFFF_FFFF_FFFF_FFFFi128 * 0x1_0000_0000) by (nonlinear_arith)
                        requires
                            0 <= vacc <= (vrow * size + col) * 0x1_0000_0000,
                            0 <= vrow * size + col <= 0xFFFF_FFFF_FFFF_FFFF,
                    ;
                }
                vacc = vacc + d;
                col += 1;
            }
            proof {
                assert(g.take(vrow as int + 2).drop_last() =~= g.take(vrow as int + 1));
                assert(g.take(vrow as int + 2).last() == g[vrow as int + 1]);
                assert(g.take(vrow as int + 2)[vrow as int] == g[vrow as int]);
                assert(g[vrow as int].take(size as int) =~= g[vrow as int]);
                assert(g[vrow as int + 1].take(size as int) =~= g[vrow as int + 1]);
                assert((vrow + 1) * size == vrow * size + size) by (nonlinear_arith);
            }
            vrow += 1;
        }
        proof {
            if size == 1 {
                assert(g.take(1) =~= g);
                assert(vacc == grid_vdiff(g));
            } else {
                assert(g.take(size as int) =~= g);
            }
            assert((size * size) * 0x1_0000_0000 <= eval_part_bound()) by (nonlinear_arith)
                requires
                    0 <= size * size <= 0xFFFF_FFFF_FFFF_FFFF,
                    eval_part_bound() == 0x1_0000_0000_0000_0000_0000_0000_0000,
            ;
        }
        0 - hacc - vacc
    }

    /// The best move for the current game state, by this player's
    /// strategy.
    pub fn get_best_move(&self, game: &Game) -> (r: GameResult<Direction>)
        requires
            game.wf(),
        ensures
            self.spec_algorithm() == AIAlgorithm::Greedy ==> r == GameResult::<Direction>::Ok(
                if game.spec_state() == GameState::Playing {
                    greedy_choice(game.grid(), game.spec_score().spec_current())
                } else {
                    Direction::Up
                },
            ),
            self.spec_algorithm() == AIAlgorithm::Expectimax ==> (r matches Ok(d) && (d
                == Direction::Up || (game.spec_state() == GameState::Playing && after_move(
                game.grid(),
                d,
            ) != game.grid()))),
            (self.spec_algorithm() == AIAlgorithm::Expectimax && game.spec_state()
                == GameState::Playing && (exists|d2: Direction|
                after_move(game.grid(), d2) != game.grid())) ==> (r matches Ok(d) && after_move(
                game.grid(),
                d,
            ) != game.grid()),
            self.spec_algorithm() == AIAlgorithm::MCTS ==> ((r matches Ok(d) ==> game.spec_state()
                == GameState::Playing && after_move(game.grid(), d) != game.grid()) && ((
            self.spec_simulation_count() >= 2 && game.spec_state() == GameState::Playing && (exists|
                d: Direction,
            | after_move(game.grid(), d) != game.grid())) ==> r is Ok)),
    {
        match self.algorithm {
            AIAlgorithm::Greedy => self.greedy_move(game),
            AIAlgorithm::Expectimax => self.expectimax_move(game),
            AIAlgorithm::MCTS => self.mcts_move(game),
        }
    }

    /// Greedy strategy: try all four directions on clones and keep the
    /// one with the strictly highest resulting current score; Up when no
    /// direction changes anything.
    fn greedy_move(&self, game: &Game) -> (r: GameResult<Direction>)
        requires
            game.wf(),
        ensures
            r == GameResult::<Direction>::Ok(
                if game.spec_state() == GameState::Playing {
                    greedy_choice(game.grid(), game.spec_score().spec_current())
                } else {
                    Direction::Up
                },
            ),
    {
        let ghost g = game.grid();
        let ghost cur = game.spec_score().spec_current();
        let ghost playing = game.spec_state() == GameState::Playing;
        let mut best_score: u32 = 0;
        let mut best_direction = Direction::Up;
        match probe_direction(game, Direction::Up) {
            Some(sc) => {
                if sc > best_score {
                    best_score = sc;
                    best_direction = Direction::Up;
                }
            },
            None => {},
        }
        match probe_direction(game, Direction::Down) {
            Some(sc) => {
                if sc > best_score {
                    best_score = sc;
                    best_direction = Direction::Down;
                }
            },
            None => {},
        }
        match probe_direction(game, Direction::Left) {
            Some(sc) => {
                if sc > best_score {
                    best_score = sc;
                    best_direction = Direction::Left;
                }
            },
            None => {},
        }
        match probe_direction(game, Direction::Right) {
            Some(sc) => {
                if sc > best_score {
                    best_score = sc;
                    best_direction = Direction::Right;
                }
            },
            None => {},
        }
        proof {
            assert((best_score, best_direction) == greedy_pair(g, cur, playing));
            if !playing {
                assert(greedy_pair(g, cur, playing).1 == Direction::Up);
            }
        }
        Ok(best_direction)
    }

    /// Expectimax strategy: score each mover by an alternating max/chance
    /// search and keep the first best; Up when no direction changes
    /// anything.
    fn expectimax_move(&self, game: &Game) -> (r: GameResult<Direction>)
        requires
            game.wf(),
        ensures
            r matches Ok(d) && (d == Direction::Up || (game.spec_state() == GameState::Playing
                && after_move(game.grid(), d) != game.grid())),
            (game.spec_state() == GameState::Playing && (exists|d2: Direction|
                after_move(game.grid(), d2) != game.grid())) ==> (r matches Ok(d) && after_move(
                game.grid(),
                d,
            ) != game.grid()),
    {
        let depth = if self.max_depth > 0 {
            self.max_depth - 1
        } else {
            0
        };
        let mut best_score: i128 = 0;
        let mut has_best = false;
        let mut best_direction = Direction::Up;
        let mut c = game.clone();
        match c.make_move(Direction::Up) {
            Ok(true) => {
                let sc = self.expectimax_search(&c, depth, false);
                if !has_best || sc > best_score {
                    best_score = sc;
                    has_best = true;
                    best_direction = Direction::Up;
                }
            },
            _ => {},
        }
        let mut c = game.clone();
        match c.make_move(Direction::Down) {
            Ok(true) => {
                let sc = self.expectimax_search(&c, depth, false);
                if !has_best || sc > best_score {
                    best_score = sc;
                    has_best = true;
                    best_direction = Direction::Down;
                }
            },
            _ => {},
        }
        let mut c = game.clone();
        match c.make_move(Direction::Left) {
            Ok(true) => {
                let sc = self.expectimax_search(&c, depth, false);
                if !has_best || sc > best_score {
                    best_score = sc;
                    has_best = true;
                    best_direction = Direction::Left;
                }
            },
            _ => {},
        }
        let mut c = game.clone();
        match c.make_move(Direction::Right) {
            Ok(true) => {
                let sc = self.expectimax_search(&c, depth, false);
                if !has_best || sc > best_score {
                    best_score = sc;
                    has_best = true;
                    best_direction = Direction::Right;
                }
            },
            _ => {},
        }
        proof {
            if game.spec_state() == GameState::Playing && (exists|d2: Direction|
                after_move(game.grid(), d2) != game.grid()) {
                let d2 = choose|d2: Direction| after_move(game.grid(), d2) != game.grid();
                match d2 {
                    Direction::Up => {},
                    Direction::Down => {},
                    Direction::Left => {},
                    Direction::Right => {},
                }
            }
        }
        Ok(best_direction)
    }

    /// The recursive expectimax value of a position: at a max layer the
    /// best over the player's moves, at a chance layer the average over a
    /// bounded sample of tile spawns, and the static evaluation at the
    /// depth limit or a finished game.
    fn expectimax_search(&self, game: &Game, depth: usize, is_maximizing: bool) -> (r: i128)
        requires
            game.wf(),
        ensures
            depth == 0 || game.spec_state() != GameState::Playing ==> r == eval10(game.grid()),
            (depth >= 1 && game.spec_state() == GameState::Playing && !is_maximizing
                && game.spec_board().spec_full()) ==> r == eval10(game.grid()),
            (depth >= 1 && game.spec_state() == GameState::Playing && is_maximizing && (forall|
                d: Direction,
            | after_move(game.grid(), d) == game.grid())) ==> r == i128::MIN,
            r == i128::MIN || (-3 * eval_part_bound() <= r <= 2 * eval_part_bound()),
        decreases depth,
    {
        let st = game.state();
        if depth == 0 || st != GameState::Playing {
            return self.evaluate_board(game.board());
        }
        if is_maximizing {
            let mut best: Option<i128> = None;
            let mut c = game.clone();
            match c.make_move(Direction::Up) {
                Ok(true) => {
                    let sc = self.expectimax_search(&c, depth - 1, false);
                    best = Some(
                        match best {
                            Some(b) => if sc > b {
                                sc
                            } else {
                                b
                            },
                            None => sc,
                        },
                    );
                },
                _ => {},
            }
            let mut c = game.clone();
            match c.make_move(Direction::Down) {
                Ok(true) => {
                    let sc = self.expectimax_search(&c, depth - 1, false);
                    best = Some(
                        match best {
                            Some(b) => if sc > b {
                                sc
                            } else {
                                b
                            },
                            None => sc,
                        },
                    );
                },
                _ => {},
            }
            let mut c = game.clone();
            match c.make_move(Direction::Left) {
                Ok(true) => {
                    let sc = self.expectimax_search(&c, depth - 1, false);
                    best = Some(
                        match best {
                            Some(b) => if sc > b {
                                sc
                            } else {
                                b
                            },
                            None => sc,
                        },
                    );
                },
                _ => {},
            }
            let mut c = game.clone();
            match c.make_move(Direction::Right) {
                Ok(true) => {
                    let sc = self.expectimax_search(&c, depth - 1, false);
                    best = Some(
                        match best {
                            Some(b) => if sc > b {
                                sc
                            } else {
                                b
                            },
                            None => sc,
                        },
                    );
                },
                _ => {},
            }
            match best {
                Some(b) => b,
                None => i128::MIN,
            }
        } else {
            let empty_positions = game.board().empty_positions();
            if empty_positions.len() == 0 {
                return self.evaluate_board(game.board());
            }
            proof {
                assert(!game.spec_board().spec_full()) by {
                    assert(game.spec_board().cell(
                        empty_positions@[0].0 as int,
                        empty_positions@[0].1 as int,
                    ) == 0);
                }
            }
            let lim = if self.simulation_count < empty_positions.len() {
                self.simulation_count
            } else {
                empty_positions.len()
            };
            let mut total: i128 = 0;
            let mut count: usize = 0;
            let mut i: usize = 0;
            while i < lim
                invariant
                    game.wf(),
                    depth >= 1,
                    count <= i <= lim,
                    -0x4000_0000_0000_0000_0000_0000_0000i128 <= total
                        <= 0x4000_0000_0000_0000_0000_0000_0000i128,
                decreases lim - i,
            {
                let mut copy = game.clone();
                match self.add_random_tile_simulation(&mut copy) {
                    Ok(()) => {
                        let sc = self.expectimax_search(&copy, depth - 1, true);
                        total = clamped_add(total, sc);
                        count += 1;
                    },
                    Err(_) => {},
                }
                i += 1;
            }
            if count > 0 {
                clamp_score(total / (count as i128))
            } else {
                self.evaluate_board(game.board())
            }
        }
    }

    /// Spawn one tile for a hypothetical position inside the search: the
    /// middle empty cell in scan order receives a 2 in nine of ten draws
    /// of the process-wide generator, otherwise a 4. A full board is left
    /// unchanged.
    fn add_random_tile_simulation(&self, game: &mut Game) -> (r: GameResult<()>)
        requires
            old(game).wf(),
        ensures
            r == GameResult::<()>::Ok(()),
            final(game).wf(),
            spawn_rel(old(game).grid(), final(game).grid()),
    {
        let empty_positions = game.board().empty_positions();
        if empty_positions.len() == 0 {
            proof {
                assert forall|i: int, j: int| #![auto]
                    0 <= i < game.grid().len() && 0 <= j < game.grid()[i].len() implies game.grid()[i][j]
                    != 0 by {
                    let x = i as usize;
                    let y = j as usize;
                    if game.spec_board().cell(x as int, y as int) == 0 {
                        assert(empty_positions@.contains((x, y)));
                        assert(false);
                    }
                    assert(game.grid()[i][j] == game.spec_board().cell(i, j));
                }
            }
            return Ok(());
        }
        let random_index = empty_positions.len() / 2;
        let (row, col) = empty_positions[random_index];
        let value: u32 = if rand::random::<u64>() % 10 < 9 {
            2
        } else {
            4
        };
        let _ = game.place_tile(row, col, Tile::new(value));
        Ok(())
    }

    /// Monte Carlo tree search: run the configured number of iterations
    /// from a fresh root and pick the root child with the most visits
    /// (first on ties). Fails when the root never gained a child.
    fn mcts_move(&self, game: &Game) -> (r: GameResult<Direction>)
        requires
            game.wf(),
        ensures
            r matches Ok(d) ==> game.spec_state() == GameState::Playing && after_move(
                game.grid(),
                d,
            ) != game.grid(),
            (self.spec_simulation_count() >= 2 && game.spec_state() == GameState::Playing && (
            exists|d: Direction| after_move(game.grid(), d) != game.grid())) ==> r is Ok,
    {
        let mut root = MCTSNode::new(game.clone());
        let sims = self.simulation_count;
        let mut iter: usize = 0;
        while iter < sims
            invariant
                game.wf(),
                children_from(root, game.grid()),
                iter == 0 ==> root.children@.len() == 0 && root.visits == 0,
                iter >= 1 ==> root.visits >= 1,
                root.children@.len() > 0 ==> game.spec_state() == GameState::Playing,
                (iter >= 2 && game.spec_state() == GameState::Playing && (exists|d: Direction|
                    after_move(game.grid(), d) != game.grid())) ==> root.children@.len() > 0,
            decreases sims - iter,
        {
            let mut sim = game.clone();
            let ghost pre_root = root;
            self.run_iteration(&mut root, &mut sim);
            proof {
                if pre_root.children@.len() > 0 {
                    assert forall|k: int|
                        0 <= k < root.children@.len() implies (#[trigger] root.children@[k].last_move
                        matches Some(d) && after_move(game.grid(), d) != game.grid()) by {
                        assert(root.children@[k].last_move == pre_root.children@[k].last_move);
                        assert(pre_root.children@[k].last_move matches Some(d2) && after_move(
                            game.grid(),
                            d2,
                        ) != game.grid());
                    }
                }
            }
            iter += 1;
        }
        if root.children.len() == 0 {
            return Err(GameError::InvalidOperation("No valid moves".to_string()));
        }
        let mut best_i: usize = 0;
        let mut best_v = root.children[0].visits;
        let mut k: usize = 1;
        while k < root.children.len()
            invariant
                root.children@.len() > 0,
                best_i < root.children@.len(),
                1 <= k <= root.children@.len(),
            decreases root.children@.len() - k,
        {
            if root.children[k].visits > best_v {
                best_v = root.children[k].visits;
                best_i = k;
            }
            k += 1;
        }
        proof {
            assert(root.children@[best_i as int].last_move is Some);
        }
        let d = match root.children[best_i].last_move {
            Some(d) => d,
            None => Direction::Up,
        };
        Ok(d)
    }

    /// One search iteration: descend by UCB1 while the node has visited
    /// children, expand the landed node if it was visited and the game is
    /// still on, then roll out and record the result on the landed node.
    fn run_iteration(&self, node: &mut MCTSNode, sim: &mut Game)
        requires
            old(sim).wf(),
        ensures
            final(sim).wf(),
            final(node).last_move == old(node).last_move,
            final(node).visits >= old(node).visits,
            old(node).children@.len() > 0 ==> final(node).children@.len() == old(node).children@.len() && (forall|k: int|
                0 <= k < old(node).children@.len() ==> final(node).children@[k].last_move == old(node).children@[k].last_move),
            (old(node).children@.len() == 0 && old(node).visits > 0 && old(sim).spec_state()
                == GameState::Playing) ==> (children_from(*final(node), old(sim).grid()) && ((
            exists|d: Direction| after_move(old(sim).grid(), d) != old(sim).grid())
                ==> final(node).children@.len() > 0)),
            (old(node).children@.len() == 0 && !(old(node).visits > 0 && old(sim).spec_state()
                == GameState::Playing)) ==> final(node).children@.len() == 0,
            old(node).children@.len() == 0 ==> final(node).visits >= 1,
        decreases *old(node),
    {
        if node.children.len() > 0 && node.visits > 0 {
            let i = select_child(&node.children, node.visits);
            let dir_opt = node.children[i].last_move;
            match dir_opt {
                Some(d) => {
                    let _ = sim.make_move(d);
                },
                None => {},
            }
            let ghost pre_children = node.children@;
            proof {
                assert(decreases_to!(*node => node.children@[i as int]));
            }
            let child = &mut node.children[i];
            self.run_iteration(child, sim);
            proof {
                assert forall|k: int| 0 <= k < pre_children.len() implies node.children@[k].last_move
                    == pre_children[k].last_move by {
                    if k != i {
                        assert(node.children@[k] == pre_children[k]);
                    }
                }
            }
        } else {
            if node.visits > 0 {
                let st = sim.state();
                if st == GameState::Playing {
                    node.expand(sim);
                }
            }
            let mut rollout = sim.clone();
            let score = self.simulate_random_game(&mut rollout);
            node.backpropagate(score);
        }
    }

    /// Roll a game out with fixed-order moves (the first of Up, Down,
    /// Left, Right that changes something) until it stops or a thousand
    /// moves have been played; score the final board statically.
    fn simulate_random_game(&self, game: &mut Game) -> (r: i128)
        requires
            old(game).wf(),
        ensures
            final(game).wf(),
            r == eval10(final(game).grid()),
    {
        let mut moves: usize = 0;
        let mut done = false;
        while !done && moves < 1000
            invariant
                game.wf(),
                moves <= 1000,
            decreases 1000 - moves, (if done { 0int } else { 1int }),
        {
            let st = game.state();
            if st != GameState::Playing {
                done = true;
            } else {
                let mut moved = false;
                match game.make_move(Direction::Up) {
                    Ok(true) => {
                        moved = true;
                    },
                    _ => {},
                }
                if !moved {
                    match game.make_move(Direction::Down) {
                        Ok(true) => {
                            moved = true;
                        },
                        _ => {},
                    }
                }
                if !moved {
                    match game.make_move(Direction::Left) {
                        Ok(true) => {
                            moved = true;
                        },
                        _ => {},
                    }
                }
                if !moved {
                    match game.make_move(Direction::Right) {
                        Ok(true) => {
                            moved = true;
                        },
                        _ => {},
                    }
                }
                if moved {
                    moves += 1;
                } else {
                    done = true;
                }
            }
        }
        self.evaluate_board(game.board())
    }
}

/// Binds an AI player to a live game for automated play loops; an
/// external driver calls `make_ai_move` once per tick.
pub struct AIGameController {
    ai_player: AIPlayer,
    game: Game,
    auto_play: bool,
    move_delay_ms: u64,
}

impl AIGameController {
    /// The bound game, for use in contracts.
    pub closed spec fn spec_game(&self) -> Game {
        self.game
    }

    /// The bound player, for use in contracts.
    pub closed spec fn spec_player(&self) -> AIPlayer {
        self.ai_player
    }

    /// The auto-play flag, for use in contracts.
    pub closed spec fn spec_auto_play(&self) -> bool {
        self.auto_play
    }

    /// The move delay, for use in contracts.
    pub closed spec fn spec_move_delay(&self) -> u64 {
        self.move_delay_ms
    }

    /// The controller invariant: its game is well-formed.
    pub open spec fn wf(&self) -> bool {
        self.spec_game().wf()
    }

    /// Create a controller around a fresh game. Fails exactly when the
    /// configured board size is zero.
    pub fn new(config: GameConfig, algorithm: AIAlgorithm) -> (r: GameResult<Self>)
        requires
            config.board_size * config.board_size <= usize::MAX,
        ensures
            config.board_size == 0 ==> r is Err,
            config.board_size >= 1 ==> (r matches Ok(c) && c.wf() && c.spec_player().spec_algorithm()
                == algorithm && c.spec_game().spec_config() == config && c.spec_auto_play() == false
                && c.spec_move_delay() == 500 && c.spec_game().spec_state() == GameState::Playing
                && c.spec_game().spec_moves() == 0 && c.spec_game().spec_score().spec_current() == 0
                && c.spec_game().spec_score().spec_best() == 0
                && c.spec_game().spec_score().spec_last_move() == 0
                && c.spec_game().spec_prev_board() is None && c.spec_game().spec_prev_score() is None
                && (exists|m: Seq<Seq<u32>>|
                #[trigger] spawn_rel(zero_grid(config.board_size as int), m) && spawn_rel(
                    m,
                    c.spec_game().grid(),
                ))),
    {
        let ai_player = AIPlayer::new(algorithm);
        let game = match Game::new(config) {
            Ok(g) => g,
            Err(e) => {
                return Err(e);
            },
        };
        Ok(Self { ai_player, game, auto_play: false, move_delay_ms: 500 })
    }

    /// Set auto-play mode.
    pub fn set_auto_play(&mut self, auto_play: bool)
        ensures
            final(self).spec_auto_play() == auto_play,
            final(self).spec_game() == old(self).spec_game(),
            final(self).spec_player() == old(self).spec_player(),
            final(self).spec_move_delay() == old(self).spec_move_delay(),
    {
        self.auto_play = auto_play;
    }

    /// Set the delay between automated moves.
    pub fn set_move_delay(&mut self, delay_ms: u64)
        ensures
            final(self).spec_move_delay() == delay_ms,
            final(self).spec_game() == old(self).spec_game(),
            final(self).spec_player() == old(self).spec_player(),
            final(self).spec_auto_play() == old(self).spec_auto_play(),
    {
        self.move_delay_ms = delay_ms;
    }

    /// The live game.
    pub fn game(&self) -> (r: &Game)
        ensures
            *r == self.spec_game(),
    {
        &self.game
    }

    /// Mutable access to the live game, for drivers that mirror a game
    /// driven elsewhere.
    pub fn game_mut(&mut self) -> (r: &mut Game)
        ensures
            *r == old(self).spec_game(),
            final(self).spec_game() == *final(r),
            final(self).spec_player() == old(self).spec_player(),
            final(self).spec_auto_play() == old(self).spec_auto_play(),
            final(self).spec_move_delay() == old(self).spec_move_delay(),
    {
        &mut self.game
    }

    /// Replace the live game, for drivers that mirror a game driven
    /// elsewhere.
    pub fn set_game(&mut self, game: Game)
        ensures
            final(self).spec_game() == game,
            final(self).spec_player() == old(self).spec_player(),
            final(self).spec_auto_play() == old(self).spec_auto_play(),
            final(self).spec_move_delay() == old(self).spec_move_delay(),
    {
        self.game = game;
    }

    /// Ask the player for a direction and apply it to the live game.
    /// Returns `false` without touching the game when it is not in the
    /// `Playing` state; propagates the strategy's error when it has no
    /// move to offer.
    pub fn make_ai_move(&mut self) -> (r: GameResult<bool>)
        requires
            old(self).wf(),
        ensures
            final(self).wf(),
            final(self).spec_player() == old(self).spec_player(),
            old(self).spec_game().spec_state() != GameState::Playing ==> r == GameResult::<
                bool,
            >::Ok(false) && *final(self) == *old(self),
            old(self).spec_game().spec_state() == GameState::Playing ==> ((r matches Ok(m)
                && exists|d: Direction|
                #[trigger] make_move_post(old(self).spec_game(), final(self).spec_game(), d, m))
                || (r is Err && *final(self) == *old(self))),
            (old(self).spec_game().spec_state() == GameState::Playing && (
            old(self).spec_player().spec_algorithm() != AIAlgorithm::MCTS || (
            old(self).spec_player().spec_simulation_count() >= 2 && (exists|d: Direction|
                after_move(old(self).spec_game().grid(), d) != old(self).spec_game().grid()))))
                ==> r is Ok,
            (old(self).spec_game().spec_state() == GameState::Playing
                && old(self).spec_player().spec_algorithm() == AIAlgorithm::Greedy) ==> (r
                matches Ok(m) && make_move_post(
                old(self).spec_game(),
                final(self).spec_game(),
                greedy_choice(
                    old(self).spec_game().grid(),
                    old(self).spec_game().spec_score().spec_current(),
                ),
                m,
            )),
    {
        let st = self.game.state();
        if st != GameState::Playing {
            return Ok(false);
        }
        let best_move = match self.ai_player.get_best_move(&self.game) {
            Ok(d) => d,
            Err(e) => {
                return Err(e);
            },
        };
        let r = self.game.make_move(best_move);
        proof {
            assert(r matches Ok(m) ==> make_move_post(
                old(self).spec_game(),
                self.spec_game(),
                best_move,
                m,
            ));
        }
        r
    }

    /// Start a new game for the same controller.
    pub fn new_game(&mut self) -> (r: GameResult<()>)
        requires
            old(self).wf(),
        ensures
            final(self).wf(),
            r == GameResult::<()>::Ok(()),
            final(self).spec_game().spec_state() == GameState::Playing,
            final(self).spec_game().spec_moves() == 0,
            final(self).spec_game().spec_config() == old(self).spec_game().spec_config(),
            final(self).spec_game().spec_score().spec_current() == 0,
            final(self).spec_game().spec_score().spec_last_move() == 0,
            final(self).spec_game().spec_score().spec_best() == old(
                self,
            ).spec_game().spec_score().spec_best(),
            final(self).spec_game().spec_prev_board() is None,
            final(self).spec_game().spec_prev_score() is None,
            exists|m: Seq<Seq<u32>>|
                #[trigger] spawn_rel(
                    zero_grid(old(self).spec_game().spec_config().board_size as int),
                    m,
                ) && spawn_rel(m, final(self).spec_game().grid()),
            final(self).spec_player() == old(self).spec_player(),
            final(self).spec_auto_play() == old(self).spec_auto_play(),
            final(self).spec_move_delay() == old(self).spec_move_delay(),
    {
        self.game.new_game()
    }

    /// The algorithm the bound player uses.
    pub fn algorithm(&self) -> (r: AIAlgorithm)
        ensures
            r == self.spec_player().spec_algorithm(),
    {
        self.ai_player.algorithm
    }
}

/// A node of the Monte Carlo search tree: a game snapshot, the children
/// discovered so far, the visit and score statistics, and the move that
/// produced it from its parent (`None` at the root).
struct MCTSNode {
    game: Game,
    children: Vec<MCTSNode>,
    visits: usize,
    total_score: i128,
    last_move: Option<Direction>,
}

/// Every child of the node is labelled with a move that changes the given
/// grid.
spec fn children_from(n: MCTSNode, g: Seq<Seq<u32>>) -> bool {
    forall|k: int|
        0 <= k < n.children@.len() ==> (#[trigger] n.children@[k].last_move matches Some(d)
            && after_move(g, d) != g)
}

impl MCTSNode {
    /// A fresh, unexpanded, unvisited node.
    fn new(game: Game) -> (n: Self)
        ensures
            n.children@.len() == 0,
            n.visits == 0,
            n.total_score == 0,
            n.last_move is None,
    {
        Self { game, children: Vec::new(), visits: 0, total_score: 0, last_move: None }
    }

    /// Add one child per direction that changes something from the given
    /// state; directions that move nothing get no child.
    fn expand(&mut self, game: &Game)
        requires
            game.wf(),
        ensures
            final(self).last_move == old(self).last_move,
            final(self).visits == old(self).visits,
            final(self).children@.len() >= old(self).children@.len(),
            forall|k: int|
                0 <= k < old(self).children@.len() ==> final(self).children@[k] == old(self).children@[k],
            forall|k: int|
                old(self).children@.len() <= k < final(self).children@.len() ==> (#[trigger] final(self).children@[k].last_move matches Some(d) && after_move(game.grid(), d)
                    != game.grid()),
            (game.spec_state() == GameState::Playing && (exists|d: Direction|
                after_move(game.grid(), d) != game.grid())) ==> final(self).children@.len() > old(self).children@.len(),
    {
        let ghost g = game.grid();
        let ghost len0 = self.children@.len();
        let mut c = game.clone();
        match c.make_move(Direction::Up) {
            Ok(true) => {
                let mut child = MCTSNode::new(c);
                child.last_move = Some(Direction::Up);
                self.children.push(child);
            },
            _ => {},
        }
        let mut c = game.clone();
        match c.make_move(Direction::Down) {
            Ok(true) => {
                let mut child = MCTSNode::new(c);
                child.last_move = Some(Direction::Down);
                self.children.push(child);
            },
            _ => {},
        }
        let mut c = game.clone();
        match c.make_move(Direction::Left) {
            Ok(true) => {
                let mut child = MCTSNode::new(c);
                child.last_move = Some(Direction::Left);
                self.children.push(child);
            },
            _ => {},
        }
        let mut c = game.clone();
        match c.make_move(Direction::Right) {
            Ok(true) => {
                let mut child = MCTSNode::new(c);
                child.last_move = Some(Direction::Right);
                self.children.push(child);
            },
            _ => {},
        }
        proof {
            if game.spec_state() == GameState::Playing && (exists|d: Direction|
                after_move(g, d) != g) {
                let d = choose|d: Direction| after_move(g, d) != g;
                match d {
                    Direction::Up => {},
                    Direction::Down => {},
                    Direction::Left => {},
                    Direction::Right => {},
                }
            }
        }
    }

    /// Record one rollout on this node: bump the visit count (sticking at
    /// the maximum) and accumulate the clamped score.
    fn backpropagate(&mut self, score: i128)
        ensures
            final(self).last_move == old(self).last_move,
            final(self).children@ == old(self).children@,
            final(self).visits >= old(self).visits,
            final(self).visits >= 1,
    {
        if self.visits < usize::MAX {
            self.visits = self.visits + 1;
        }
        self.total_score = clamped_add(self.total_score, score);
    }
}

/// Floor logarithm in base two: how many times the value halves before
/// reaching one.
spec fn spec_log2_floor(n: int) -> int
    decreases n,
{
    if n < 2 {
        0
    } else {
        1 + spec_log2_floor(n / 2)
    }
}

/// Whether `r` is the integer square root of `x`.
spec fn is_sqrt_of(r: int, x: int) -> bool {
    0 <= r && r * r <= x && x < (r + 1) * (r + 1)
}

/// The integer square root of a non-negative value.
spec fn spec_isqrt(x: int) -> int {
    choose|r: int| is_sqrt_of(r, x)
}

/// The integer square root is unique.
proof fn lemma_isqrt_unique(x: int, r1: int, r2: int)
    requires
        is_sqrt_of(r1, x),
        is_sqrt_of(r2, x),
    ensures
        r1 == r2,
{
    if r1 < r2 {
        assert((r1 + 1) * (r1 + 1) <= r2 * r2) by (nonlinear_arith)
            requires
                0 <= r1,
                r1 < r2,
        ;
    }
    if r2 < r1 {
        assert((r2 + 1) * (r2 + 1) <= r1 * r1) by (nonlinear_arith)
            requires
                0 <= r2,
                r2 < r1,
        ;
    }
}

/// A search value clamped into the accumulated-total range (2^110).
spec fn spec_clamp(x: int) -> int {
    if x > 0x4000_0000_0000_0000_0000_0000_0000 {
        0x4000_0000_0000_0000_0000_0000_0000
    } else if x < -0x4000_0000_0000_0000_0000_0000_0000 {
        -0x4000_0000_0000_0000_0000_0000_0000
    } else {
        x
    }
}

/// The UCB1 priority of a child, in thousandths: its clamped average
/// score plus an exploration term of 1.414 times the square root of the
/// parent's log-visits over its own visits. Fixed-point throughout: the
/// natural logarithm is approximated by 0.693 per halving, divisions
/// truncate toward zero.
spec fn spec_ucb_milli(total: i128, visits: int, parent_visits: int) -> int {
    let t = spec_clamp(total as int);
    let exploit = (if t >= 0 {
        t / visits
    } else {
        0 - ((0 - t) / visits)
    }) * 100;
    let inner = 693 * spec_log2_floor(parent_visits) * 1000 / visits;
    let explore = 1414 * spec_isqrt(inner) / 1000;
    exploit + explore
}

/// The UCB1 priority of a child, computed exactly as `spec_ucb_milli`
/// states it.
fn ucb_milli(total: i128, visits: usize, parent_visits: usize) -> (r: i128)
    requires
        visits >= 1,
        parent_visits >= 1,
    ensures
        r == spec_ucb_milli(total, visits as int, parent_visits as int),
{
    let t = clamp_score(total);
    let v = visits as i128;
    let exploit = if t >= 0 {
        (t / v) * 100
    } else {
        (0 - ((0 - t) / v)) * 100
    };
    let l = ln_milli(parent_visits);
    let inner = l * 1000 / (visits as u64);
    let root = isqrt(inner);
    let explore = 1414i128 * (root as i128) / 1000;
    exploit + explore
}

/// One step of the selection fold: a visited child replaces the best seen
/// so far only when its priority strictly exceeds it.
spec fn sel_step(acc: (Option<i128>, int), u: int, k: int, visited: bool) -> (Option<i128>, int) {
    if visited {
        match acc.0 {
            None => (Some(u as i128), k),
            Some(b) => if u > b {
                (Some(u as i128), k)
            } else {
                acc
            },
        }
    } else {
        acc
    }
}

/// The selection fold from child `k` on, carrying the best seen so far.
spec fn spec_select_from(
    cs: Seq<MCTSNode>,
    parent_visits: int,
    k: int,
    acc: (Option<i128>, int),
) -> (Option<i128>, int)
    decreases cs.len() - k,
{
    if k < 0 || k >= cs.len() {
        acc
    } else {
        spec_select_from(
            cs,
            parent_visits,
            k + 1,
            sel_step(
                acc,
                spec_ucb_milli(cs[k].total_score, cs[k].visits as int, parent_visits),
                k,
                cs[k].visits > 0,
            ),
        )
    }
}

/// The child the selection step descends into: the visited child with the
/// greatest UCB1 priority, first on ties; the first child when none has
/// been visited yet.
spec fn spec_select(cs: Seq<MCTSNode>, parent_visits: int) -> int {
    spec_select_from(cs, parent_visits, 0, (None::<i128>, 0int)).1
}

/// The index of the child the selection step descends into, computed
/// exactly as `spec_select` states it.
fn select_child(children: &Vec<MCTSNode>, parent_visits: usize) -> (r: usize)
    requires
        children@.len() >= 1,
        parent_visits >= 1,
    ensures
        r < children@.len(),
        r == spec_select(children@, parent_visits as int),
{
    let mut best_i: usize = 0;
    let mut best: Option<i128> = None;
    let mut k: usize = 0;
    while k < children.len()
        invariant
            best_i < children@.len(),
            k <= children@.len(),
            parent_visits >= 1,
            spec_select_from(children@, parent_visits as int, 0, (None::<i128>, 0int))
                == spec_select_from(
                children@,
                parent_visits as int,
                k as int,
                (best, best_i as int),
            ),
        decreases children@.len() - k,
    {
        if children[k].visits > 0 {
            let u = ucb_milli(children[k].total_score, children[k].visits, parent_visits);
            match best {
                None => {
                    best = Some(u);
                    best_i = k;
                },
                Some(b) => {
                    if u > b {
                        best = Some(u);
                        best_i = k;
                    }
                },
            }
        }
        k += 1;
    }
    best_i
}

/// A thousandth-scaled natural logarithm approximation: 693 per halving
/// of the argument.
fn ln_milli(n: usize) -> (r: u64)
    requires
        n >= 1,
    ensures
        r == 693 * spec_log2_floor(n as int),
        r <= 44352,
{
    let mut v: usize = n;
    let mut c: u64 = 0;
    proof {
        lemma2_to64();
        assert(pow2(0) == 1);
    }
    while v >= 2
        invariant
            v >= 1,
            c <= 63,
            v * pow2(c as nat) <= n,
            spec_log2_floor(n as int) == c + spec_log2_floor(v as int),
        decreases v,
    {
        proof {
            lemma2_to64();
            assert(pow2((c + 1) as nat) == 2 * pow2(c as nat)) by {
                vstd::arithmetic::power2::lemma_pow2_adds(c as nat, 1);
            }
            if c == 63 {
                assert(v * pow2(63) >= 2 * 0x8000_0000_0000_0000) by (nonlinear_arith)
                    requires
                        v >= 2,
                        pow2(63) == 0x8000_0000_0000_0000,
                ;
            }
            assert((v / 2) * pow2((c + 1) as nat) <= v * pow2(c as nat)) by (nonlinear_arith)
                requires
                    v >= 2,
                    pow2((c + 1) as nat) == 2 * pow2(c as nat),
                    pow2(c as nat) >= 0,
            ;
        }
        v = v / 2;
        c = c + 1;
    }
    693 * c
}

/// Whether the square of a small value stays within the argument.
fn sq_le(a: u64, x: u64) -> (b: bool)
    requires
        a <= 0x1_0000_0000,
    ensures
        b == ((a as int) * (a as int) <= x),
{
    proof {
        assert((a as int) * (a as int) <= 0x1_0000_0000_0000_0000) by (nonlinear_arith)
            requires
                0 <= a <= 0x1_0000_0000,
        ;
    }
    let p = (a as u128) * (a as u128);
    p <= (x as u128)
}

/// The integer square root: the largest value whose square does not
/// exceed the argument.
fn isqrt(x: u64) -> (r: u64)
    ensures
        (r as int) * (r as int) <= x,
        x < ((r as int) + 1) * ((r as int) + 1),
        r == spec_isqrt(x as int),
{
    let mut r: u64 = 0;
    while sq_le(r + 1, x)
        invariant
            (r as int) * (r as int) <= x,
            r <= x,
            r <= 0xFFFF_FFFF,
        decreases x - r,
    {
        proof {
            assert(((r as int) + 1) * ((r as int) + 1) <= x as int);
            assert((r as int) + 1 <= 0xFFFF_FFFF) by (nonlinear_arith)
                requires
                    r >= 0,
                    ((r as int) + 1) * ((r as int) + 1) <= 0xFFFF_FFFF_FFFF_FFFF,
            ;
            assert((r as int) + 1 <= ((r as int) + 1) * ((r as int) + 1)) by (nonlinear_arith)
                requires
                    r >= 0,
            ;
        }
        r = r + 1;
    }
    proof {
        assert(is_sqrt_of(r as int, x as int));
        assert(exists|q: int| is_sqrt_of(q, x as int));
        assert(is_sqrt_of(spec_isqrt(x as int), x as int));
        lemma_isqrt_unique(x as int, r as int, spec_isqrt(x as int));
    }
    r
}

} // verus!
