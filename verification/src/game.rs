//! The game itself: move execution, scoring, win/loss detection, undo.

use vstd::prelude::*;

use crate::board::{col_of, Board, Tile};
use crate::error::{GameError, GameResult};
use crate::line::{
    collapse_line, collapse_line_rev, collapsed, lemma_collapsed_len, lemma_no_change_no_gains,
    lemma_seq_sum_add, lemma_seq_sum_nonneg, lemma_seq_sum_push, merge_values, nonzeros,
    rcollapsed, seq_sum,
};
use crate::rng::GameRng;
use crate::score::{lemma_score_ext, spec_max_u32, spec_sat_add, Score};
use crate::{GameConfig, GameStats};

verus! {

/// The direction of a move.
#[derive(Debug, Clone, Copy, PartialEq, Eq, Structural)]
pub enum Direction {
    Up,
    Down,
    Left,
    Right,
}

/// The game state: terminal once `Won` or `GameOver`, except that undo can
/// revert to `Playing`.
#[derive(Debug, Clone, Copy, PartialEq, Eq, Structural)]
pub enum GameState {
    Playing,
    Won,
    GameOver,
}

/// The grid after collapsing every line in the given direction, before any
/// tile spawn. Rows collapse toward the left or right edge; columns toward
/// the top or bottom edge.
pub open spec fn after_move(g: Seq<Seq<u32>>, d: Direction) -> Seq<Seq<u32>> {
    match d {
        Direction::Left => Seq::new(g.len(), |r: int| collapsed(g[r])),
        Direction::Right => Seq::new(g.len(), |r: int| rcollapsed(g[r])),
        Direction::Up => Seq::new(
            g.len(),
            |r: int| Seq::new(g.len(), |c: int| collapsed(col_of(g, c))[r]),
        ),
        Direction::Down => Seq::new(
            g.len(),
            |r: int| Seq::new(g.len(), |c: int| rcollapsed(col_of(g, c))[r]),
        ),
    }
}

/// The merge awards of each line of a move, in the order the lines are
/// processed; each line's awards are in edge-inward order.
pub open spec fn line_gains(g: Seq<Seq<u32>>, d: Direction) -> Seq<Seq<u32>> {
    match d {
        Direction::Left => Seq::new(g.len(), |r: int| merge_values(nonzeros(g[r]))),
        Direction::Right => Seq::new(g.len(), |r: int| merge_values(nonzeros(g[r].reverse()))),
        Direction::Up => Seq::new(g.len(), |c: int| merge_values(nonzeros(col_of(g, c)))),
        Direction::Down => Seq::new(
            g.len(),
            |c: int| merge_values(nonzeros(col_of(g, c).reverse())),
        ),
    }
}

/// The lines of a move flattened into one sequence of merge awards.
pub open spec fn concat_lines(s: Seq<Seq<u32>>) -> Seq<u32>
    decreases s.len(),
{
    if s.len() == 0 {
        Seq::empty()
    } else {
        concat_lines(s.drop_last()) + s.last()
    }
}

/// All merge awards of one move, in scoring order.
pub open spec fn move_gains(g: Seq<Seq<u32>>, d: Direction) -> Seq<u32> {
    concat_lines(line_gains(g, d))
}

/// What one move's merges do to the score: the current score grows by the
/// total of the awards (saturating), the best score follows it, and the
/// most-recent-merge record becomes the last award.
pub open spec fn score_merged(s0: Score, s1: Score, vals: Seq<u32>) -> bool {
    &&& s1.spec_current() == spec_sat_add(s0.spec_current(), seq_sum(vals))
    &&& s1.spec_best() == if vals.len() == 0 {
        s0.spec_best()
    } else {
        spec_max_u32(s0.spec_best(), s1.spec_current())
    }
    &&& s1.spec_last_move() == if vals.len() == 0 {
        s0.spec_last_move()
    } else {
        vals.last()
    }
}

/// An entirely empty square grid.
pub open spec fn zero_grid(n: int) -> Seq<Seq<u32>> {
    Seq::new(n as nat, |r: int| Seq::new(n as nat, |c: int| 0u32))
}

/// How a tile spawn relates the grid before it to the grid after it:
/// either the grid was full and is unchanged, or exactly one empty cell now
/// holds a 2 or a 4.
pub open spec fn spawn_rel(a: Seq<Seq<u32>>, b: Seq<Seq<u32>>) -> bool {
    ||| ((forall|i: int, j: int| #![auto]
        0 <= i < a.len() && 0 <= j < a[i].len() ==> a[i][j] != 0) && b == a)
    ||| (exists|i: int, j: int, v: u32| #![auto]
        0 <= i < a.len() && 0 <= j < a[i].len() && a[i][j] == 0 && (v == 2 || v == 4) && b
            == a.update(i, a[i].update(j, v)))
}

/// A move counter bump that sticks at `u32::MAX` instead of wrapping.
pub open spec fn spec_sat_inc(m: u32) -> u32 {
    if m < u32::MAX {
        (m + 1) as u32
    } else {
        m
    }
}

/// The state reached after a move: `Won` when some tile reaches the target
/// value, else `GameOver` when no move is possible, else still `Playing`.
pub open spec fn spec_state_after(b: Board, target: u32) -> GameState {
    if exists|i: int, j: int| b.pos_ok(i, j) && #[trigger] b.cell(i, j) >= target {
        GameState::Won
    } else if !b.spec_has_valid_moves() {
        GameState::GameOver
    } else {
        GameState::Playing
    }
}

/// What `make_move` does when the game was in the `Playing` state: `pre`
/// is the game before the move, `post` the game after it, and `moved`
/// whether any tile moved. With undo enabled the pre-move board and score
/// are snapshotted either way. A move that changed nothing left the game
/// as it was; one that moved collapsed the lines, scored the merges,
/// stepped the move counter, spawned one tile and re-evaluated the state.
pub open spec fn make_move_post(pre: Game, post: Game, direction: Direction, moved: bool) -> bool {
    let g0 = pre.grid();
    let gains = move_gains(g0, direction);
    &&& moved == (after_move(g0, direction) != g0)
    &&& (pre.spec_config().allow_undo ==> (post.spec_prev_board() matches Some(pb) && pb.grid()
        == g0 && post.spec_prev_score() == Some(pre.spec_score())))
    &&& (!pre.spec_config().allow_undo ==> post.spec_prev_board() == pre.spec_prev_board()
        && post.spec_prev_score() == pre.spec_prev_score())
    &&& (!moved ==> post.grid() == g0 && post.spec_score() == pre.spec_score() && post.spec_moves()
        == pre.spec_moves() && post.spec_state() == GameState::Playing)
    &&& (moved ==> {
        &&& spawn_rel(after_move(g0, direction), post.grid())
        &&& post.spec_score().spec_current() == spec_sat_add(
            pre.spec_score().spec_current(),
            seq_sum(gains),
        )
        &&& post.spec_score().spec_best() == spec_max_u32(
            pre.spec_score().spec_best(),
            post.spec_score().spec_current(),
        )
        &&& post.spec_score().spec_last_move() == (if gains.len() == 0 {
            0u32
        } else {
            gains.last()
        })
        &&& post.spec_moves() == spec_sat_inc(pre.spec_moves())
        &&& post.spec_state() == spec_state_after(
            post.spec_board(),
            pre.spec_config().target_score,
        )
    })
}

/// What a successful `undo` does: the snapshotted board comes back, the
/// current score and most-recent-merge record come back (the best score
/// keeps its high-water mark), the move counter steps back, the state is
/// forced to `Playing`, and the snapshot is cleared.
pub open spec fn undo_post(pre: Game, post: Game) -> bool {
    &&& (pre.spec_prev_board() matches Some(pb) ==> post.grid() == pb.grid())
    &&& (pre.spec_prev_score() matches Some(ps) ==> post.spec_score().spec_current()
        == ps.spec_current() && post.spec_score().spec_last_move() == ps.spec_last_move())
    &&& post.spec_score().spec_best() == pre.spec_score().spec_best()
    &&& post.spec_moves() == (if pre.spec_moves() > 0 {
        (pre.spec_moves() - 1) as u32
    } else {
        0u32
    })
    &&& post.spec_state() == GameState::Playing
    &&& post.spec_prev_board() is None
    &&& post.spec_prev_score() is None
}

/// Undo inverse: a move that moved something, followed by an undo,
/// restores the board, the current score and the move counter to their
/// exact pre-move values, and consumes the snapshot, so a second undo in
/// a row fails. (After a move that was a no-op the snapshot still
/// restores the board and score, but the counter, which the no-op never
/// raised, steps back below its pre-move value.)
pub proof fn lemma_undo_restores_move(g0: Game, g1: Game, g2: Game, d: Direction, moved: bool)
    requires
        g0.wf(),
        g0.spec_config().allow_undo,
        g0.spec_state() == GameState::Playing,
        g0.spec_moves() < u32::MAX,
        moved,
        make_move_post(g0, g1, d, moved),
        undo_post(g1, g2),
    ensures
        g2.grid() == g0.grid(),
        g2.spec_score().spec_current() == g0.spec_score().spec_current(),
        g2.spec_score().spec_last_move() == g0.spec_score().spec_last_move(),
        g2.spec_moves() == g0.spec_moves(),
        g2.spec_state() == GameState::Playing,
        g2.spec_prev_board() is None,
        g2.spec_prev_score() is None,
{
}

/// Folding two batches of merge awards into a score, one after the other,
/// is folding their concatenation.
proof fn lemma_score_merged_trans(s0: Score, s1: Score, s2: Score, a: Seq<u32>, b: Seq<u32>)
    requires
        score_merged(s0, s1, a),
        score_merged(s1, s2, b),
    ensures
        score_merged(s0, s2, a + b),
{
    lemma_seq_sum_add(a, b);
    lemma_seq_sum_nonneg(a);
    lemma_seq_sum_nonneg(b);
    if b.len() == 0 {
        assert(a + b =~= a);
    } else {
        assert((a + b).last() == b.last());
    }
}

/// Concatenating lines that awarded nothing awards nothing.
proof fn lemma_concat_all_empty(s: Seq<Seq<u32>>)
    requires
        forall|i: int| 0 <= i < s.len() ==> #[trigger] s[i].len() == 0,
    ensures
        concat_lines(s).len() == 0,
    decreases s.len(),
{
    if s.len() > 0 {
        lemma_concat_all_empty(s.drop_last());
    }
}

/// A move that changes nothing awarded no points: no line merged.
proof fn lemma_no_move_no_gains(g: Seq<Seq<u32>>, d: Direction)
    requires
        forall|i: int| 0 <= i < g.len() ==> #[trigger] g[i].len() == g.len(),
        after_move(g, d) == g,
    ensures
        move_gains(g, d).len() == 0,
{
    let a = after_move(g, d);
    let lg = line_gains(g, d);
    assert forall|i: int| 0 <= i < lg.len() implies #[trigger] lg[i].len() == 0 by {
        match d {
            Direction::Left => {
                assert(a[i] == collapsed(g[i]));
                lemma_no_change_no_gains(g[i]);
            },
            Direction::Right => {
                assert(a[i] == rcollapsed(g[i]));
                let rev = g[i].reverse();
                assert(collapsed(rev).reverse() == g[i]);
                assert(collapsed(rev) =~= rev) by {
                    assert(collapsed(rev).reverse().reverse() =~= collapsed(rev));
                    assert(g[i].reverse() =~= rev);
                }
                lemma_no_change_no_gains(rev);
            },
            Direction::Up => {
                let col = col_of(g, i);
                lemma_collapsed_len(col);
                assert forall|r: int| 0 <= r < col.len() implies collapsed(col)[r] == col[r] by {
                    assert(a[r][i] == collapsed(col_of(g, i))[r]);
                    assert(a[r] == g[r]);
                }
                assert(collapsed(col) =~= col);
                lemma_no_change_no_gains(col);
            },
            Direction::Down => {
                let col = col_of(g, i);
                let rev = col.reverse();
                lemma_collapsed_len(col);
                assert forall|r: int| 0 <= r < col.len() implies rcollapsed(col)[r] == col[r] by {
                    assert(a[r][i] == rcollapsed(col_of(g, i))[r]);
                    assert(a[r] == g[r]);
                }
                assert(rcollapsed(col) =~= col);
                assert(collapsed(rev).reverse() == col);
                assert(collapsed(rev) =~= rev) by {
                    assert(collapsed(rev).reverse().reverse() =~= collapsed(rev));
                    assert(col.reverse() =~= rev);
                }
                lemma_no_change_no_gains(rev);
            },
        }
    }
    lemma_concat_all_empty(lg);
}

/// Main game controller: one board, one score, one generator, a
/// configuration, the move counter, and the single-slot undo snapshot.
#[derive(Debug)]
pub struct Game {
    /// Game board.
    board: Board,
    /// Score tracker.
    score: Score,
    /// Random number generator.
    rng: GameRng,
    /// Game configuration.
    config: GameConfig,
    /// Current game state.
    state: GameState,
    /// Number of moves made.
    moves: u32,
    /// Game start time (Unix timestamp).
    start_time: u64,
    /// Previous board state for undo.
    previous_board: Option<Board>,
    /// Previous score for undo.
    previous_score: Option<Score>,
}

/// The fields a move never touches: everything but the board, the score
/// and the generator.
pub open spec fn same_mode(a: Game, b: Game) -> bool {
    &&& a.spec_state() == b.spec_state()
    &&& a.spec_moves() == b.spec_moves()
    &&& a.spec_config() == b.spec_config()
    &&& a.spec_prev_board() == b.spec_prev_board()
    &&& a.spec_prev_score() == b.spec_prev_score()
    &&& a.spec_start_time() == b.spec_start_time()
}

impl Game {
    /// The board, for use in contracts.
    pub closed spec fn spec_board(&self) -> Board {
        self.board
    }

    /// The score, for use in contracts.
    pub closed spec fn spec_score(&self) -> Score {
        self.score
    }

    /// The generator, for use in contracts.
    pub closed spec fn spec_rng(&self) -> GameRng {
        self.rng
    }

    /// The configuration, for use in contracts.
    pub closed spec fn spec_config(&self) -> GameConfig {
        self.config
    }

    /// The state, for use in contracts.
    pub closed spec fn spec_state(&self) -> GameState {
        self.state
    }

    /// The move counter, for use in contracts.
    pub closed spec fn spec_moves(&self) -> u32 {
        self.moves
    }

    /// The start time, for use in contracts.
    pub closed spec fn spec_start_time(&self) -> u64 {
        self.start_time
    }

    /// The undo snapshot of the board, for use in contracts.
    pub closed spec fn spec_prev_board(&self) -> Option<Board> {
        self.previous_board
    }

    /// The undo snapshot of the score, for use in contracts.
    pub closed spec fn spec_prev_score(&self) -> Option<Score> {
        self.previous_score
    }

    /// The grid of the live board.
    pub open spec fn grid(&self) -> Seq<Seq<u32>> {
        self.spec_board().grid()
    }

    /// The game invariant: a well-formed board of the configured size, a
    /// well-formed score, and a coherent undo slot whose best score never
    /// exceeds the live one.
    pub open spec fn wf(&self) -> bool {
        &&& self.spec_board().wf()
        &&& self.spec_board().spec_size() == self.spec_config().board_size
        &&& self.spec_config().board_size >= 1
        &&& self.spec_config().board_size * self.spec_config().board_size <= usize::MAX
        &&& self.spec_score().wf()
        &&& (self.spec_prev_board() is Some <==> self.spec_prev_score() is Some)
        &&& (self.spec_prev_board() matches Some(b) ==> b.wf() && b.spec_size()
            == self.spec_config().board_size)
        &&& (self.spec_prev_score() matches Some(s) ==> s.wf() && s.spec_best()
            <= self.spec_score().spec_best())
    }

    /// Get the current board.
    pub fn board(&self) -> (r: &Board)
        ensures
            *r == self.spec_board(),
    {
        &self.board
    }

    /// Mutable access to the board, for drivers and simulations that set
    /// up positions directly. Replacing the board with one of another
    /// size breaks the game invariant; the mutating operations of `Board`
    /// itself all preserve it.
    pub fn board_mut(&mut self) -> (r: &mut Board)
        ensures
            *r == old(self).spec_board(),
            final(self).spec_board() == *final(r),
            final(self).spec_score() == old(self).spec_score(),
            final(self).spec_rng() == old(self).spec_rng(),
            same_mode(*old(self), *final(self)),
    {
        &mut self.board
    }

    /// Get the current score.
    pub fn score(&self) -> (r: &Score)
        ensures
            *r == self.spec_score(),
    {
        &self.score
    }

    /// Get the game state.
    pub fn state(&self) -> (r: GameState)
        ensures
            r == self.spec_state(),
    {
        self.state
    }

    /// Get the number of moves made.
    pub fn moves(&self) -> (r: u32)
        ensures
            r == self.spec_moves(),
    {
        self.moves
    }

    /// Current time in seconds since the Unix epoch.
    pub fn get_current_time() -> u64 {
        crate::get_current_time()
    }

    /// A snapshot of the game statistics. The duration is the wall-clock
    /// time since the game started, clamped at zero.
    pub fn stats(&self) -> (r: GameStats)
        ensures
            r.score == self.spec_score().spec_current(),
            r.best_score == self.spec_score().spec_best(),
            r.moves == self.spec_moves(),
            r.won == (self.spec_state() == GameState::Won),
            r.game_over == (self.spec_state() == GameState::GameOver),
    {
        let now = Game::get_current_time();
        let duration = if now >= self.start_time {
            now - self.start_time
        } else {
            0
        };
        GameStats {
            score: self.score.current(),
            best_score: self.score.best(),
            moves: self.moves,
            duration,
            won: self.state == GameState::Won,
            game_over: self.state == GameState::GameOver,
        }
    }

    /// A deep copy of the game; everything the contracts speak of is
    /// preserved. The generator is copied in its current state, so the copy
    /// replays the draws the original would have made.
    pub fn clone(&self) -> (g: Game)
        ensures
            g.spec_board().spec_size() == self.spec_board().spec_size(),
            g.spec_board().grid() == self.grid(),
            g.spec_board().wf() == self.spec_board().wf(),
            g.spec_score() == self.spec_score(),
            g.spec_state() == self.spec_state(),
            g.spec_moves() == self.spec_moves(),
            g.spec_config() == self.spec_config(),
            g.spec_start_time() == self.spec_start_time(),
            g.spec_prev_board() is Some <==> self.spec_prev_board() is Some,
            self.spec_prev_board() matches Some(b) ==> (g.spec_prev_board() matches Some(gb)
                && gb.grid() == b.grid() && gb.spec_size() == b.spec_size() && gb.wf() == b.wf()),
            g.spec_prev_score() == self.spec_prev_score(),
            self.wf() ==> g.wf(),
    {
        let previous_board = match &self.previous_board {
            Some(b) => Some(b.clone()),
            None => None,
        };
        Game {
            board: self.board.clone(),
            score: self.score,
            rng: self.rng.clone(),
            config: self.config,
            state: self.state,
            moves: self.moves,
            start_time: self.start_time,
            previous_board,
            previous_score: self.previous_score,
        }
    }

    /// Create a new game: an empty board of the configured size, a zero
    /// score, and two spawned tiles. Fails exactly when the configured
    /// board size is zero.
    pub fn new(config: GameConfig) -> (r: GameResult<Game>)
        requires
            config.board_size * config.board_size <= usize::MAX,
        ensures
            config.board_size == 0 ==> r == GameResult::<Game>::Err(
                GameError::InvalidBoardSize { size: config.board_size },
            ),
            config.board_size >= 1 ==> (r matches Ok(g) && {
                &&& g.wf()
                &&& g.spec_config() == config
                &&& g.spec_state() == GameState::Playing
                &&& g.spec_moves() == 0
                &&& g.spec_score().spec_current() == 0
                &&& g.spec_score().spec_best() == 0
                &&& g.spec_score().spec_last_move() == 0
                &&& g.spec_prev_board() is None
                &&& g.spec_prev_score() is None
                &&& exists|m: Seq<Seq<u32>>|
                    #[trigger] spawn_rel(zero_grid(config.board_size as int), m) && spawn_rel(
                        m,
                        g.grid(),
                    )
            }),
    {
        let board = match Board::new(config.board_size) {
            Ok(b) => b,
            Err(e) => {
                return Err(e);
            },
        };
        let rng = GameRng::new(config.seed);
        let start_time = Game::get_current_time();
        let mut game = Game {
            board,
            score: Score::new(),
            rng,
            config,
            state: GameState::Playing,
            moves: 0,
            start_time,
            previous_board: None,
            previous_score: None,
        };
        proof {
            assert(game.grid() =~~= zero_grid(config.board_size as int));
        }
        let _ = game.add_random_tile();
        let ghost mid = game.grid();
        let _ = game.add_random_tile();
        proof {
            assert(spawn_rel(zero_grid(config.board_size as int), mid) && spawn_rel(
                mid,
                game.grid(),
            ));
        }
        Ok(game)
    }

    /// Spawn one tile: a uniformly drawn empty cell receives a 2 (nine of
    /// ten draws) or a 4. A full board is left unchanged.
    fn add_random_tile(&mut self) -> (r: GameResult<()>)
        requires
            old(self).spec_board().wf(),
        ensures
            r == GameResult::<()>::Ok(()),
            final(self).spec_board().wf(),
            final(self).spec_board().spec_size() == old(self).spec_board().spec_size(),
            spawn_rel(old(self).grid(), final(self).grid()),
            final(self).spec_score() == old(self).spec_score(),
            same_mode(*old(self), *final(self)),
    {
        let empty_positions = self.board.empty_positions();
        if empty_positions.len() == 0 {
            proof {
                assert forall|i: int, j: int| #![auto]
                    0 <= i < self.grid().len() && 0 <= j < self.grid()[i].len() implies self.grid()[i][j]
                    != 0 by {
                    let x = i as usize;
                    let y = j as usize;
                    assert(x < self.spec_board().spec_size() && y
                        < self.spec_board().spec_size());
                    if self.spec_board().cell(x as int, y as int) == 0 {
                        assert(empty_positions@.contains((x, y)));
                        assert(false);
                    }
                    assert(self.grid()[i][j] == self.spec_board().cell(i, j));
                }
            }
            return Ok(());
        }
        let random_index = self.rng.gen_range(empty_positions.len());
        let (row, col) = empty_positions[random_index];
        let value = self.rng.gen_tile_value();
        let ghost g0 = self.grid();
        let res = self.board.set_tile(row, col, Tile::new(value));
        proof {
            assert(res is Ok);
            assert(self.grid() =~~= g0.update(
                row as int,
                g0[row as int].update(col as int, value),
            ));
        }
        Ok(())
    }

    /// Make a move in the given direction. Fails exactly when the game is
    /// not in the `Playing` state. A move that changes nothing is a no-op:
    /// no tile spawns, the move counter and the state stay put, and `false`
    /// comes back. A move that changes something collapses every line,
    /// scores its merges, spawns one random tile, re-evaluates the state,
    /// and returns `true`. With undo enabled, the pre-move board and score
    /// are snapshotted either way, overwriting any earlier snapshot.
    pub fn make_move(&mut self, direction: Direction) -> (r: GameResult<bool>)
        requires
            old(self).wf(),
        ensures
            final(self).wf(),
            final(self).spec_config() == old(self).spec_config(),
            old(self).spec_state() != GameState::Playing ==> r == GameResult::<bool>::Err(
                GameError::GameOver,
            ) && *final(self) == *old(self),
            old(self).spec_state() == GameState::Playing ==> (r matches Ok(moved)
                && make_move_post(*old(self), *final(self), direction, moved)),
    {
        if self.state != GameState::Playing {
            return Err(GameError::GameOver);
        }
        if self.config.allow_undo {
            self.previous_board = Some(self.board.clone());
            self.previous_score = Some(self.score);
        }
        let prev_last = self.score.last_move();
        self.score.clear_last_move();
        let ghost s_cleared = self.spec_score();
        let moved = match self.perform_move(direction) {
            Ok(m) => m,
            Err(e) => {
                return Err(e);
            },
        };
        if moved {
            if self.moves < u32::MAX {
                self.moves = self.moves + 1;
            }
            let _ = self.add_random_tile();
            let _ = self.update_game_state();
            proof {
                lemma_seq_sum_nonneg(move_gains(old(self).grid(), direction));
            }
            Ok(true)
        } else {
            proof {
                lemma_no_move_no_gains(old(self).grid(), direction);
            }
            self.score.set_last_move(prev_last);
            proof {
                lemma_score_ext(self.spec_score(), old(self).spec_score());
            }
            Ok(false)
        }
    }

    /// Undo the last move: restore the snapshotted board and score, step
    /// the move counter back, force the state to `Playing`, and clear the
    /// snapshot. Fails exactly when undo is disabled or no snapshot is
    /// held; a second undo in a row therefore fails. The best score keeps
    /// its high-water mark.
    pub fn undo(&mut self) -> (r: GameResult<()>)
        requires
            old(self).wf(),
        ensures
            final(self).wf(),
            final(self).spec_config() == old(self).spec_config(),
            !old(self).spec_config().allow_undo ==> r == GameResult::<()>::Err(
                GameError::NoUndoAvailable,
            ) && *final(self) == *old(self),
            old(self).spec_config().allow_undo && old(self).spec_prev_board() is None ==> r
                == GameResult::<()>::Err(GameError::NoUndoAvailable) && *final(self) == *old(self),
            old(self).spec_config().allow_undo && old(self).spec_prev_board() is Some ==> r
                == GameResult::<()>::Ok(()) && undo_post(*old(self), *final(self)),
    {
        if !self.config.allow_undo {
            return Err(GameError::NoUndoAvailable);
        }
        let pb = self.previous_board.take();
        let ps = self.previous_score.take();
        match (pb, ps) {
            (Some(b), Some(s)) => {
                self.board = b;
                self.score.restore(&s);
                self.moves = if self.moves > 0 {
                    self.moves - 1
                } else {
                    0
                };
                self.state = GameState::Playing;
                Ok(())
            },
            (pb2, ps2) => {
                self.previous_board = pb2;
                self.previous_score = ps2;
                Err(GameError::NoUndoAvailable)
            },
        }
    }

    /// Start a new game in place: an empty board of the same size, the
    /// current score and move counter reset (the best score is preserved),
    /// the undo snapshot cleared, and two tiles spawned.
    pub fn new_game(&mut self) -> (r: GameResult<()>)
        requires
            old(self).wf(),
        ensures
            final(self).wf(),
            r == GameResult::<()>::Ok(()),
            final(self).spec_config() == old(self).spec_config(),
            final(self).spec_state() == GameState::Playing,
            final(self).spec_moves() == 0,
            final(self).spec_score().spec_current() == 0,
            final(self).spec_score().spec_last_move() == 0,
            final(self).spec_score().spec_best() == old(self).spec_score().spec_best(),
            final(self).spec_prev_board() is None,
            final(self).spec_prev_score() is None,
            exists|m: Seq<Seq<u32>>|
                #[trigger] spawn_rel(
                    zero_grid(old(self).spec_config().board_size as int),
                    m,
                ) && spawn_rel(m, final(self).grid()),
    {
        let board = match Board::new(self.config.board_size) {
            Ok(b) => b,
            Err(e) => {
                return Err(e);
            },
        };
        self.board = board;
        self.score.reset_current();
        self.state = GameState::Playing;
        self.moves = 0;
        self.start_time = Game::get_current_time();
        self.previous_board = None;
        self.previous_score = None;
        proof {
            assert(self.grid() =~~= zero_grid(self.spec_config().board_size as int));
        }
        let _ = self.add_random_tile();
        let ghost mid = self.grid();
        let _ = self.add_random_tile();
        proof {
            assert(spawn_rel(zero_grid(old(self).spec_config().board_size as int), mid)
                && spawn_rel(mid, self.grid()));
        }
        Ok(())
    }

    /// Re-evaluate the state after a move: `Won` once a tile reaches the
    /// target value, else `GameOver` when no move is left.
    fn update_game_state(&mut self) -> (r: GameResult<()>)
        requires
            old(self).wf(),
            old(self).spec_state() == GameState::Playing,
        ensures
            r == GameResult::<()>::Ok(()),
            final(self).spec_board() == old(self).spec_board(),
            final(self).spec_score() == old(self).spec_score(),
            final(self).spec_moves() == old(self).spec_moves(),
            final(self).spec_config() == old(self).spec_config(),
            final(self).spec_rng() == old(self).spec_rng(),
            final(self).spec_prev_board() == old(self).spec_prev_board(),
            final(self).spec_prev_score() == old(self).spec_prev_score(),
            final(self).spec_start_time() == old(self).spec_start_time(),
            final(self).spec_state() == spec_state_after(
                old(self).spec_board(),
                old(self).spec_config().target_score,
            ),
            final(self).wf(),
    {
        let mx = self.board.max_tile();
        if mx >= self.config.target_score {
            proof {
                if mx == 0 {
                    assert(self.spec_board().pos_ok(0, 0));
                    assert(self.spec_board().cell(0, 0) >= self.spec_config().target_score);
                }
            }
            self.state = GameState::Won;
        } else if !self.board.has_valid_moves() {
            self.state = GameState::GameOver;
        }
        Ok(())
    }

    /// Collapse one row toward the left edge, scoring its merges.
    fn merge_row_left(&mut self, row: usize) -> (r: GameResult<bool>)
        requires
            old(self).spec_board().wf(),
            row < old(self).spec_board().spec_size(),
        ensures
            final(self).spec_board().wf(),
            final(self).spec_board().spec_size() == old(self).spec_board().spec_size(),
            forall|i: int, j: int| #![auto]
                final(self).spec_board().pos_ok(i, j) ==> final(self).spec_board().cell(i, j) == (
                if i == row {
                    collapsed(old(self).grid()[row as int])[j]
                } else {
                    old(self).spec_board().cell(i, j)
                }),
            score_merged(
                old(self).spec_score(),
                final(self).spec_score(),
                merge_values(nonzeros(old(self).grid()[row as int])),
            ),
            r == GameResult::<bool>::Ok(
                collapsed(old(self).grid()[row as int]) != old(self).grid()[row as int],
            ),
            final(self).spec_rng() == old(self).spec_rng(),
            same_mode(*old(self), *final(self)),
    {
        let line = self.board.row_vec(row);
        let (out, merges, moved) = collapse_line(&line);
        proof {
            lemma_collapsed_len(line@);
        }
        self.board.set_row(row, &out);
        self.score_merges(&merges);
        Ok(moved)
    }

    /// Collapse one row toward the right edge, scoring its merges.
    fn merge_row_right(&mut self, row: usize) -> (r: GameResult<bool>)
        requires
            old(self).spec_board().wf(),
            row < old(self).spec_board().spec_size(),
        ensures
            final(self).spec_board().wf(),
            final(self).spec_board().spec_size() == old(self).spec_board().spec_size(),
            forall|i: int, j: int| #![auto]
                final(self).spec_board().pos_ok(i, j) ==> final(self).spec_board().cell(i, j) == (
                if i == row {
                    rcollapsed(old(self).grid()[row as int])[j]
                } else {
                    old(self).spec_board().cell(i, j)
                }),
            score_merged(
                old(self).spec_score(),
                final(self).spec_score(),
                merge_values(nonzeros(old(self).grid()[row as int].reverse())),
            ),
            r == GameResult::<bool>::Ok(
                rcollapsed(old(self).grid()[row as int]) != old(self).grid()[row as int],
            ),
            final(self).spec_rng() == old(self).spec_rng(),
            same_mode(*old(self), *final(self)),
    {
        let line = self.board.row_vec(row);
        let (out, merges, moved) = collapse_line_rev(&line);
        proof {
            lemma_collapsed_len(line@);
        }
        self.board.set_row(row, &out);
        self.score_merges(&merges);
        Ok(moved)
    }

    /// Collapse one column toward the top edge, scoring its merges.
    fn merge_col_up(&mut self, col: usize) -> (r: GameResult<bool>)
        requires
            old(self).spec_board().wf(),
            col < old(self).spec_board().spec_size(),
        ensures
            final(self).spec_board().wf(),
            final(self).spec_board().spec_size() == old(self).spec_board().spec_size(),
            forall|i: int, j: int| #![auto]
                final(self).spec_board().pos_ok(i, j) ==> final(self).spec_board().cell(i, j) == (
                if j == col {
                    collapsed(col_of(old(self).grid(), col as int))[i]
                } else {
                    old(self).spec_board().cell(i, j)
                }),
            score_merged(
                old(self).spec_score(),
                final(self).spec_score(),
                merge_values(nonzeros(col_of(old(self).grid(), col as int))),
            ),
            r == GameResult::<bool>::Ok(
                collapsed(col_of(old(self).grid(), col as int)) != col_of(
                    old(self).grid(),
                    col as int,
                ),
            ),
            final(self).spec_rng() == old(self).spec_rng(),
            same_mode(*old(self), *final(self)),
    {
        let line = self.board.col_vec(col);
        let (out, merges, moved) = collapse_line(&line);
        proof {
            lemma_collapsed_len(line@);
        }
        self.board.set_col(col, &out);
        self.score_merges(&merges);
        Ok(moved)
    }

    /// Collapse one column toward the bottom edge, scoring its merges.
    fn merge_col_down(&mut self, col: usize) -> (r: GameResult<bool>)
        requires
            old(self).spec_board().wf(),
            col < old(self).spec_board().spec_size(),
        ensures
            final(self).spec_board().wf(),
            final(self).spec_board().spec_size() == old(self).spec_board().spec_size(),
            forall|i: int, j: int| #![auto]
                final(self).spec_board().pos_ok(i, j) ==> final(self).spec_board().cell(i, j) == (
                if j == col {
                    rcollapsed(col_of(old(self).grid(), col as int))[i]
                } else {
                    old(self).spec_board().cell(i, j)
                }),
            score_merged(
                old(self).spec_score(),
                final(self).spec_score(),
                merge_values(nonzeros(col_of(old(self).grid(), col as int).reverse())),
            ),
            r == GameResult::<bool>::Ok(
                rcollapsed(col_of(old(self).grid(), col as int)) != col_of(
                    old(self).grid(),
                    col as int,
                ),
            ),
            final(self).spec_rng() == old(self).spec_rng(),
            same_mode(*old(self), *final(self)),
    {
        let line = self.board.col_vec(col);
        let (out, merges, moved) = collapse_line_rev(&line);
        proof {
            lemma_collapsed_len(line@);
        }
        self.board.set_col(col, &out);
        self.score_merges(&merges);
        Ok(moved)
    }

    /// Collapse every line of the board in the given direction, scoring all
    /// merges; reports whether any tile moved.
    fn perform_move(&mut self, direction: Direction) -> (r: GameResult<bool>)
        requires
            old(self).spec_board().wf(),
        ensures
            final(self).spec_board().wf(),
            final(self).spec_board().spec_size() == old(self).spec_board().spec_size(),
            final(self).grid() == after_move(old(self).grid(), direction),
            score_merged(
                old(self).spec_score(),
                final(self).spec_score(),
                move_gains(old(self).grid(), direction),
            ),
            r == GameResult::<bool>::Ok(after_move(old(self).grid(), direction) != old(self).grid()),
            final(self).spec_rng() == old(self).spec_rng(),
            same_mode(*old(self), *final(self)),
    {
        let ghost g0 = old(self).grid();
        let ghost n = old(self).spec_board().spec_size();
        let ghost lg = line_gains(g0, direction);
        let size = self.board.size();
        let mut moved = false;
        let mut idx: usize = 0;
        proof {
            assert(lg.take(0) =~= Seq::<Seq<u32>>::empty());
        }
        match direction {
            Direction::Left => {
                while idx < size
                    invariant
                        self.spec_board().wf(),
                        self.spec_board().spec_size() == n,
                        size == n,
                        idx <= size,
                        g0 == old(self).grid(),
                        g0.len() == n,
                        forall|i: int| 0 <= i < n ==> #[trigger] g0[i].len() == n,
                        lg == line_gains(g0, Direction::Left),
                        forall|i: int, j: int| #![auto]
                            self.spec_board().pos_ok(i, j) ==> self.spec_board().cell(i, j) == (
                            if i < idx {
                                collapsed(g0[i])[j]
                            } else {
                                g0[i][j]
                            }),
                        score_merged(
                            old(self).spec_score(),
                            self.spec_score(),
                            concat_lines(lg.take(idx as int)),
                        ),
                        moved == exists|i: int| #![auto]
                            0 <= i < idx && collapsed(g0[i]) != g0[i],
                        self.spec_rng() == old(self).spec_rng(),
                        same_mode(*old(self), *self),
                    decreases size - idx,
                {
                    proof {
                        assert(self.grid()[idx as int] =~= g0[idx as int]);
                    }
                    let ghost pre_score = self.spec_score();
                    let m = match self.merge_row_left(idx) {
                        Ok(m) => m,
                        Err(_) => false,
                    };
                    proof {
                        assert(lg.take(idx as int + 1).drop_last() =~= lg.take(idx as int));
                        assert(lg.take(idx as int + 1).last() == lg[idx as int]);
                        lemma_score_merged_trans(
                            old(self).spec_score(),
                            pre_score,
                            self.spec_score(),
                            concat_lines(lg.take(idx as int)),
                            merge_values(nonzeros(g0[idx as int])),
                        );
                    }
                    moved = moved || m;
                    idx += 1;
                }
                proof {
                    self.lemma_finish_rows(g0, n, Direction::Left, moved);
                }
            },
            Direction::Right => {
                while idx < size
                    invariant
                        self.spec_board().wf(),
                        self.spec_board().spec_size() == n,
                        size == n,
                        idx <= size,
                        g0 == old(self).grid(),
                        g0.len() == n,
                        forall|i: int| 0 <= i < n ==> #[trigger] g0[i].len() == n,
                        lg == line_gains(g0, Direction::Right),
                        forall|i: int, j: int| #![auto]
                            self.spec_board().pos_ok(i, j) ==> self.spec_board().cell(i, j) == (
                            if i < idx {
                                rcollapsed(g0[i])[j]
                            } else {
                                g0[i][j]
                            }),
                        score_merged(
                            old(self).spec_score(),
                            self.spec_score(),
                            concat_lines(lg.take(idx as int)),
                        ),
                        moved == exists|i: int| #![auto]
                            0 <= i < idx && rcollapsed(g0[i]) != g0[i],
                        self.spec_rng() == old(self).spec_rng(),
                        same_mode(*old(self), *self),
                    decreases size - idx,
                {
                    proof {
                        assert(self.grid()[idx as int] =~= g0[idx as int]);
                    }
                    let ghost pre_score = self.spec_score();
                    let m = match self.merge_row_right(idx) {
                        Ok(m) => m,
                        Err(_) => false,
                    };
                    proof {
                        assert(lg.take(idx as int + 1).drop_last() =~= lg.take(idx as int));
                        assert(lg.take(idx as int + 1).last() == lg[idx as int]);
                        lemma_score_merged_trans(
                            old(self).spec_score(),
                            pre_score,
                            self.spec_score(),
                            concat_lines(lg.take(idx as int)),
                            merge_values(nonzeros(g0[idx as int].reverse())),
                        );
                    }
                    moved = moved || m;
                    idx += 1;
                }
                proof {
                    self.lemma_finish_rows(g0, n, Direction::Right, moved);
                }
            },
            Direction::Up => {
                while idx < size
                    invariant
                        self.spec_board().wf(),
                        self.spec_board().spec_size() == n,
                        size == n,
                        idx <= size,
                        g0 == old(self).grid(),
                        g0.len() == n,
                        forall|i: int| 0 <= i < n ==> #[trigger] g0[i].len() == n,
                        lg == line_gains(g0, Direction::Up),
                        forall|i: int, j: int| #![auto]
                            self.spec_board().pos_ok(i, j) ==> self.spec_board().cell(i, j) == (
                            if j < idx {
                                collapsed(col_of(g0, j))[i]
                            } else {
                                g0[i][j]
                            }),
                        score_merged(
                            old(self).spec_score(),
                            self.spec_score(),
                            concat_lines(lg.take(idx as int)),
                        ),
                        moved == exists|c: int| #![auto]
                            0 <= c < idx && collapsed(col_of(g0, c)) != col_of(g0, c),
                        self.spec_rng() == old(self).spec_rng(),
                        same_mode(*old(self), *self),
                    decreases size - idx,
                {
                    proof {
                        assert(col_of(self.grid(), idx as int) =~= col_of(g0, idx as int));
                    }
                    let ghost pre_score = self.spec_score();
                    let m = match self.merge_col_up(idx) {
                        Ok(m) => m,
                        Err(_) => false,
                    };
                    proof {
                        assert(lg.take(idx as int + 1).drop_last() =~= lg.take(idx as int));
                        assert(lg.take(idx as int + 1).last() == lg[idx as int]);
                        lemma_score_merged_trans(
                            old(self).spec_score(),
                            pre_score,
                            self.spec_score(),
                            concat_lines(lg.take(idx as int)),
                            merge_values(nonzeros(col_of(g0, idx as int))),
                        );
                    }
                    moved = moved || m;
                    idx += 1;
                }
                proof {
                    self.lemma_finish_cols(g0, n, Direction::Up, moved);
                }
            },
            Direction::Down => {
                while idx < size
                    invariant
                        self.spec_board().wf(),
                        self.spec_board().spec_size() == n,
                        size == n,
                        idx <= size,
                        g0 == old(self).grid(),
                        g0.len() == n,
                        forall|i: int| 0 <= i < n ==> #[trigger] g0[i].len() == n,
                        lg == line_gains(g0, Direction::Down),
                        forall|i: int, j: int| #![auto]
                            self.spec_board().pos_ok(i, j) ==> self.spec_board().cell(i, j) == (
                            if j < idx {
                                rcollapsed(col_of(g0, j))[i]
                            } else {
                                g0[i][j]
                            }),
                        score_merged(
                            old(self).spec_score(),
                            self.spec_score(),
                            concat_lines(lg.take(idx as int)),
                        ),
                        moved == exists|c: int| #![auto]
                            0 <= c < idx && rcollapsed(col_of(g0, c)) != col_of(g0, c),
                        self.spec_rng() == old(self).spec_rng(),
                        same_mode(*old(self), *self),
                    decreases size - idx,
                {
                    proof {
                        assert(col_of(self.grid(), idx as int) =~= col_of(g0, idx as int));
                    }
                    let ghost pre_score = self.spec_score();
                    let m = match self.merge_col_down(idx) {
                        Ok(m) => m,
                        Err(_) => false,
                    };
                    proof {
                        assert(lg.take(idx as int + 1).drop_last() =~= lg.take(idx as int));
                        assert(lg.take(idx as int + 1).last() == lg[idx as int]);
                        lemma_score_merged_trans(
                            old(self).spec_score(),
                            pre_score,
                            self.spec_score(),
                            concat_lines(lg.take(idx as int)),
                            merge_values(nonzeros(col_of(g0, idx as int).reverse())),
                        );
                    }
                    moved = moved || m;
                    idx += 1;
                }
                proof {
                    self.lemma_finish_cols(g0, n, Direction::Down, moved);
                }
            },
        }
        proof {
            assert(lg.take(n as int) =~= lg);
        }
        Ok(moved)
    }

    /// After every row is collapsed, the board is the moved grid, and a
    /// tile moved exactly when the grids differ.
    proof fn lemma_finish_rows(&self, g0: Seq<Seq<u32>>, n: int, d: Direction, moved: bool)
        requires
            d == Direction::Left || d == Direction::Right,
            g0.len() == n,
            forall|i: int| 0 <= i < n ==> #[trigger] g0[i].len() == n,
            self.spec_board().spec_size() == n,
            forall|i: int, j: int| #![auto]
                self.spec_board().pos_ok(i, j) ==> self.spec_board().cell(i, j) == (if d
                    == Direction::Left {
                    collapsed(g0[i])[j]
                } else {
                    rcollapsed(g0[i])[j]
                }),
            moved == exists|i: int| #![auto]
                0 <= i < n && (if d == Direction::Left {
                    collapsed(g0[i])
                } else {
                    rcollapsed(g0[i])
                }) != g0[i],
        ensures
            self.grid() == after_move(g0, d),
            moved == (after_move(g0, d) != g0),
    {
        let a = after_move(g0, d);
        assert forall|i: int| 0 <= i < n implies collapsed(g0[i]).len() == n && rcollapsed(
            g0[i],
        ).len() == n by {
            lemma_collapsed_len(g0[i]);
        }
        assert forall|i: int| 0 <= i < n implies self.grid()[i] =~= a[i] by {
            assert(forall|j: int| 0 <= j < n ==> self.grid()[i][j] == self.spec_board().cell(i, j));
        }
        assert(self.grid() =~= a);
        if moved {
            let i = choose|i: int| #![auto]
                0 <= i < n && (if d == Direction::Left {
                    collapsed(g0[i])
                } else {
                    rcollapsed(g0[i])
                }) != g0[i];
            assert(a[i] != g0[i]);
            assert(a != g0);
        } else {
            assert forall|i: int| 0 <= i < n implies a[i] == g0[i] by {}
            assert(a =~= g0);
        }
    }

    /// After every column is collapsed, the board is the moved grid, and a
    /// tile moved exactly when the grids differ.
    proof fn lemma_finish_cols(&self, g0: Seq<Seq<u32>>, n: int, d: Direction, moved: bool)
        requires
            d == Direction::Up || d == Direction::Down,
            g0.len() == n,
            forall|i: int| 0 <= i < n ==> #[trigger] g0[i].len() == n,
            self.spec_board().spec_size() == n,
            forall|i: int, j: int| #![auto]
                self.spec_board().pos_ok(i, j) ==> self.spec_board().cell(i, j) == (if d
                    == Direction::Up {
                    collapsed(col_of(g0, j))[i]
                } else {
                    rcollapsed(col_of(g0, j))[i]
                }),
            moved == exists|c: int| #![auto]
                0 <= c < n && (if d == Direction::Up {
                    collapsed(col_of(g0, c))
                } else {
                    rcollapsed(col_of(g0, c))
                }) != col_of(g0, c),
        ensures
            self.grid() == after_move(g0, d),
            moved == (after_move(g0, d) != g0),
    {
        let a = after_move(g0, d);
        assert forall|c: int| 0 <= c < n implies collapsed(col_of(g0, c)).len() == n && rcollapsed(
            col_of(g0, c),
        ).len() == n by {
            lemma_collapsed_len(col_of(g0, c));
        }
        assert forall|i: int| 0 <= i < n implies self.grid()[i] =~= a[i] by {
            assert(forall|j: int| 0 <= j < n ==> self.grid()[i][j] == self.spec_board().cell(i, j));
        }
        assert(self.grid() =~= a);
        if moved {
            let c = choose|c: int| #![auto]
                0 <= c < n && (if d == Direction::Up {
                    collapsed(col_of(g0, c))
                } else {
                    rcollapsed(col_of(g0, c))
                }) != col_of(g0, c);
            let w = if d == Direction::Up {
                collapsed(col_of(g0, c))
            } else {
                rcollapsed(col_of(g0, c))
            };
            assert(exists|i: int| 0 <= i < n && w[i] != col_of(g0, c)[i]) by {
                if forall|i: int| 0 <= i < n ==> #[trigger] w[i] == col_of(g0, c)[i] {
                    assert(w =~= col_of(g0, c));
                }
            }
            let i = choose|i: int| 0 <= i < n && w[i] != col_of(g0, c)[i];
            assert(a[i][c] == w[i]);
            assert(g0[i][c] == col_of(g0, c)[i]);
            assert(a[i] != g0[i]);
            assert(a != g0);
        } else {
            assert forall|i: int, c: int| 0 <= i < n && 0 <= c < n implies #[trigger] a[i][c]
                == g0[i][c] by {
                assert(col_of(g0, c)[i] == g0[i][c]);
            }
            assert forall|i: int| 0 <= i < n implies a[i] =~= g0[i] by {}
            assert(a =~= g0);
        }
    }

    /// Award one line's merge values to the score, in order.
    fn score_merges(&mut self, merges: &Vec<u32>)
        ensures
            final(self).spec_board() == old(self).spec_board(),
            final(self).spec_rng() == old(self).spec_rng(),
            score_merged(old(self).spec_score(), final(self).spec_score(), merges@),
            same_mode(*old(self), *final(self)),
    {
        let ghost vals = merges@;
        let mut q: usize = 0;
        proof {
            assert(vals.take(0) =~= Seq::<u32>::empty());
        }
        while q < merges.len()
            invariant
                q <= merges@.len(),
                merges@ == vals,
                self.spec_board() == old(self).spec_board(),
                self.spec_rng() == old(self).spec_rng(),
                score_merged(old(self).spec_score(), self.spec_score(), vals.take(q as int)),
                same_mode(*old(self), *self),
            decreases merges@.len() - q,
        {
            let v = merges[q];
            proof {
                assert(vals.take(q as int + 1) =~= vals.take(q as int).push(v));
                lemma_seq_sum_push(vals.take(q as int), v);
                lemma_seq_sum_nonneg(vals.take(q as int));
            }
            self.score.add_merge_points(v);
            q += 1;
        }
        proof {
            assert(vals.take(vals.len() as int) =~= vals);
        }
    }

    /// Place a tile during an AI simulation.
    pub(crate) fn place_tile(&mut self, row: usize, col: usize, tile: Tile) -> (r: GameResult<()>)
        requires
            old(self).spec_board().wf(),
            old(self).spec_board().pos_ok(row as int, col as int),
        ensures
            r == GameResult::<()>::Ok(()),
            final(self).spec_board().wf(),
            final(self).spec_board().spec_size() == old(self).spec_board().spec_size(),
            final(self).grid() == old(self).grid().update(
                row as int,
                old(self).grid()[row as int].update(col as int, tile.value),
            ),
            final(self).spec_score() == old(self).spec_score(),
            final(self).spec_rng() == old(self).spec_rng(),
            same_mode(*old(self), *final(self)),
    {
        let ghost g0 = self.grid();
        let res = self.board.set_tile(row, col, tile);
        proof {
            assert(res is Ok);
            assert(self.grid() =~~= g0.update(
                row as int,
                g0[row as int].update(col as int, tile.value),
            ));
        }
        Ok(())
    }
}

} // verus!
