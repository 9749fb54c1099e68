//! Replay capture and playback: recording the moves of a live game and
//! replaying a recorded direction sequence through a fresh game.

use vstd::prelude::*;

use crate::error::{GameError, GameResult};
use crate::game::{make_move_post, Direction, Game, GameState};
use crate::GameConfig;

verus! {

broadcast use vstd::string::to_string_from_display_ensures_for_str;

/// A single recorded move.
#[derive(Debug)]
pub struct ReplayMove {
    /// Direction of the move.
    pub direction: Direction,
    /// Board state before the move.
    pub board_before: Vec<Vec<u32>>,
    /// Board state after the move.
    pub board_after: Vec<Vec<u32>>,
    /// Score before the move.
    pub score_before: u32,
    /// Score after the move.
    pub score_after: u32,
    /// Move number.
    pub move_number: u32,
    /// Timestamp of the move.
    pub timestamp: u64,
}

/// Complete replay data.
#[derive(Debug)]
pub struct ReplayData {
    /// Game configuration.
    pub config: GameConfig,
    /// Initial board state.
    pub initial_board: Vec<Vec<u32>>,
    /// All moves in the replay.
    pub moves: Vec<ReplayMove>,
    /// Final game state.
    pub final_state: GameState,
    /// Final score.
    pub final_score: u32,
    /// Total moves.
    pub total_moves: u32,
    /// Game duration.
    pub duration: u64,
    /// Replay metadata.
    pub metadata: ReplayMetadata,
}

/// Replay metadata.
#[derive(Debug)]
pub struct ReplayMetadata {
    /// Replay name/title.
    pub name: String,
    /// Creation timestamp.
    pub created_at: u64,
    /// Player name (optional).
    pub player_name: Option<String>,
    /// Game version.
    pub version: String,
    /// Additional notes.
    pub notes: Option<String>,
}

impl ReplayMetadata {
    /// Create new replay metadata with a custom name.
    pub fn new(name: String) -> (m: Self)
        ensures
            m.name == name,
            m.player_name is None,
            m.notes is None,
    {
        Self {
            name,
            created_at: Game::get_current_time(),
            player_name: None,
            version: "0.1.0".to_string(),
            notes: None,
        }
    }

    /// Set the player name.
    pub fn with_player_name(self, player_name: String) -> (m: Self)
        ensures
            m.player_name == Some(player_name),
            m.name == self.name,
            m.created_at == self.created_at,
            m.version == self.version,
            m.notes == self.notes,
    {
        Self { player_name: Some(player_name), ..self }
    }

    /// Set the notes.
    pub fn with_notes(self, notes: String) -> (m: Self)
        ensures
            m.notes == Some(notes),
            m.name == self.name,
            m.created_at == self.created_at,
            m.version == self.version,
            m.player_name == self.player_name,
    {
        Self { notes: Some(notes), ..self }
    }

    /// A copy of the metadata.
    pub fn clone(&self) -> (m: Self)
        ensures
            m.name == self.name,
            m.created_at == self.created_at,
            m.player_name == self.player_name,
            m.version == self.version,
            m.notes == self.notes,
    {
        Self {
            name: self.name.clone(),
            created_at: self.created_at,
            player_name: clone_opt_string(&self.player_name),
            version: self.version.clone(),
            notes: clone_opt_string(&self.notes),
        }
    }
}

impl Default for ReplayMetadata {
    fn default() -> (m: Self)
        ensures
            m.player_name is None,
            m.notes is None,
    {
        Self {
            name: "Untitled Replay".to_string(),
            created_at: Game::get_current_time(),
            player_name: None,
            version: "0.1.0".to_string(),
            notes: None,
        }
    }
}

/// A copy of an optional string.
fn clone_opt_string(s: &Option<String>) -> (r: Option<String>)
    ensures
        r == *s,
{
    match s {
        Some(x) => Some(x.clone()),
        None => None,
    }
}

/// A copy of a grid of plain values.
fn clone_grid(v: &Vec<Vec<u32>>) -> (r: Vec<Vec<u32>>)
    ensures
        r@.len() == v@.len(),
        forall|i: int| 0 <= i < v@.len() ==> r@[i]@ == v@[i]@,
{
    let mut r: Vec<Vec<u32>> = Vec::new();
    let mut i: usize = 0;
    while i < v.len()
        invariant
            i <= v@.len(),
            r@.len() == i,
            forall|k: int| 0 <= k < i ==> r@[k]@ == v@[k]@,
        decreases v@.len() - i,
    {
        let mut row: Vec<u32> = Vec::new();
        let mut j: usize = 0;
        while j < v[i].len()
            invariant
                i < v@.len(),
                j <= v@[i as int]@.len(),
                row@ == v@[i as int]@.take(j as int),
            decreases v@[i as int]@.len() - j,
        {
            row.push(v[i][j]);
            proof {
                assert(v@[i as int]@.take(j as int + 1) =~= v@[i as int]@.take(j as int).push(
                    v@[i as int]@[j as int],
                ));
            }
            j += 1;
        }
        proof {
            assert(v@[i as int]@.take(v@[i as int]@.len() as int) =~= v@[i as int]@);
        }
        r.push(row);
        i += 1;
    }
    r
}

/// The view of a recorded move: everything the contracts compare.
pub open spec fn move_like(a: ReplayMove, b: ReplayMove) -> bool {
    &&& a.direction == b.direction
    &&& a.board_before@.len() == b.board_before@.len() && (forall|i: int|
        0 <= i < a.board_before@.len() ==> a.board_before@[i]@ == b.board_before@[i]@)
    &&& a.board_after@.len() == b.board_after@.len() && (forall|i: int|
        0 <= i < a.board_after@.len() ==> a.board_after@[i]@ == b.board_after@[i]@)
    &&& a.score_before == b.score_before
    &&& a.score_after == b.score_after
    &&& a.move_number == b.move_number
    &&& a.timestamp == b.timestamp
}

impl ReplayMove {
    /// A copy of the recorded move.
    pub fn clone(&self) -> (m: Self)
        ensures
            move_like(m, *self),
    {
        Self {
            direction: self.direction,
            board_before: clone_grid(&self.board_before),
            board_after: clone_grid(&self.board_after),
            score_before: self.score_before,
            score_after: self.score_after,
            move_number: self.move_number,
            timestamp: self.timestamp,
        }
    }
}

impl ReplayData {
    /// A copy of the replay data.
    pub fn clone(&self) -> (d: Self)
        ensures
            d.config == self.config,
            d.moves@.len() == self.moves@.len(),
            forall|i: int| 0 <= i < self.moves@.len() ==> move_like(d.moves@[i], self.moves@[i]),
            d.final_state == self.final_state,
            d.final_score == self.final_score,
            d.total_moves == self.total_moves,
            d.duration == self.duration,
    {
        let mut moves: Vec<ReplayMove> = Vec::new();
        let mut i: usize = 0;
        while i < self.moves.len()
            invariant
                i <= self.moves@.len(),
                moves@.len() == i,
                forall|k: int| 0 <= k < i ==> move_like(moves@[k], self.moves@[k]),
            decreases self.moves@.len() - i,
        {
            moves.push(self.moves[i].clone());
            i += 1;
        }
        Self {
            config: self.config,
            initial_board: clone_grid(&self.initial_board),
            moves,
            final_state: self.final_state,
            final_score: self.final_score,
            total_moves: self.total_moves,
            duration: self.duration,
            metadata: self.metadata.clone(),
        }
    }
}

/// Records the moves of a live game as they are made.
pub struct ReplayRecorder {
    /// Game being recorded.
    game: Game,
    /// Replay data being built.
    replay_data: ReplayData,
    /// Whether recording is active.
    recording: bool,
}

impl ReplayRecorder {
    /// The recorded game, for use in contracts.
    pub closed spec fn spec_game(&self) -> Game {
        self.game
    }

    /// The replay built so far, for use in contracts.
    pub closed spec fn spec_data(&self) -> ReplayData {
        self.replay_data
    }

    /// Whether recording is active, for use in contracts.
    pub closed spec fn spec_recording(&self) -> bool {
        self.recording
    }

    /// The recorder invariant: its game is well-formed.
    pub open spec fn wf(&self) -> bool {
        self.spec_game().wf()
    }

    /// Start recording a fresh game. Fails exactly when the configured
    /// board size is zero.
    pub fn new(config: GameConfig) -> (r: GameResult<Self>)
        requires
            config.board_size * config.board_size <= usize::MAX,
        ensures
            config.board_size == 0 ==> r is Err,
            config.board_size >= 1 ==> (r matches Ok(rec) && rec.wf() && rec.spec_recording()
                && rec.spec_data().moves@.len() == 0 && rec.spec_data().config == config
                && rec.spec_game().spec_config() == config && rec.spec_game().spec_state()
                == GameState::Playing && rec.spec_game().spec_moves() == 0
                && rec.spec_data().total_moves == 0 && rec.spec_data().final_state
                == GameState::Playing && rec.spec_data().final_score == 0
                && rec.spec_data().initial_board@.len() == rec.spec_game().spec_board().spec_size()
                && (forall|i: int|
                0 <= i < rec.spec_data().initial_board@.len()
                    ==> rec.spec_data().initial_board@[i]@ == rec.spec_game().grid()[i])),
    {
        let game = match Game::new(config) {
            Ok(g) => g,
            Err(e) => {
                return Err(e);
            },
        };
        let initial_board = game.board().to_vec();
        let replay_data = ReplayData {
            config,
            initial_board,
            moves: Vec::new(),
            final_state: game.state(),
            final_score: game.score().current(),
            total_moves: 0,
            duration: 0,
            metadata: ReplayMetadata::default(),
        };
        Ok(Self { game, replay_data, recording: true })
    }

    /// Make a move on the recorded game and, if it changed anything,
    /// append it to the replay. Fails when recording has been stopped or
    /// when the game rejects the move.
    pub fn make_move(&mut self, direction: Direction) -> (r: GameResult<bool>)
        requires
            old(self).wf(),
        ensures
            final(self).wf(),
            !old(self).spec_recording() ==> r is Err && *final(self) == *old(self),
            old(self).spec_recording() ==> final(self).spec_recording() && (old(self).spec_game().spec_state() != GameState::Playing ==> r is Err),
            old(self).spec_recording() && old(self).spec_game().spec_state() == GameState::Playing
                ==> (r matches Ok(moved) && make_move_post(
                old(self).spec_game(),
                final(self).spec_game(),
                direction,
                moved,
            ) && (moved ==> final(self).spec_data().moves@.len() == old(self).spec_data().moves@.len() + 1 && {
                let rec = final(self).spec_data().moves@.last();
                &&& rec.direction == direction
                &&& rec.score_before == old(self).spec_game().spec_score().spec_current()
                &&& rec.score_after == final(self).spec_game().spec_score().spec_current()
                &&& rec.move_number == old(self).spec_game().spec_moves()
                &&& rec.board_before@.len() == old(self).spec_game().spec_board().spec_size()
                &&& (forall|i: int|
                    0 <= i < rec.board_before@.len() ==> rec.board_before@[i]@ == old(self).spec_game().grid()[i])
                &&& rec.board_after@.len() == final(self).spec_game().spec_board().spec_size()
                &&& (forall|i: int|
                    0 <= i < rec.board_after@.len() ==> rec.board_after@[i]@ == final(self).spec_game().grid()[i])
                &&& final(self).spec_data().final_score
                    == final(self).spec_game().spec_score().spec_current()
                &&& final(self).spec_data().final_state == final(self).spec_game().spec_state()
                &&& final(self).spec_data().total_moves == final(self).spec_game().spec_moves()
            }) && (!moved ==> final(self).spec_data().moves@.len() == old(self).spec_data().moves@.len())),
    {
        if !self.recording {
            return Err(GameError::InvalidOperation("Recording stopped".to_string()));
        }
        let board_before = self.game.board().to_vec();
        let score_before = self.game.score().current();
        let move_number = self.game.moves();
        let timestamp = Game::get_current_time();
        let moved = match self.game.make_move(direction) {
            Ok(m) => m,
            Err(e) => {
                return Err(e);
            },
        };
        if moved {
            let move_record = ReplayMove {
                direction,
                board_before,
                board_after: self.game.board().to_vec(),
                score_before,
                score_after: self.game.score().current(),
                move_number,
                timestamp,
            };
            self.replay_data.moves.push(move_record);
            self.replay_data.total_moves = self.game.moves();
            self.replay_data.final_state = self.game.state();
            self.replay_data.final_score = self.game.score().current();
        }
        Ok(moved)
    }

    /// Stop recording and hand out the finished replay. The duration is
    /// the wall-clock time since the metadata was created, clamped at
    /// zero.
    pub fn stop_recording(&mut self) -> (d: ReplayData)
        ensures
            !final(self).spec_recording(),
            final(self).spec_game() == old(self).spec_game(),
            d.config == old(self).spec_data().config,
            d.moves@.len() == old(self).spec_data().moves@.len(),
            forall|i: int|
                0 <= i < d.moves@.len() ==> move_like(d.moves@[i], old(self).spec_data().moves@[i]),
            d.final_state == old(self).spec_data().final_state,
            d.final_score == old(self).spec_data().final_score,
            d.total_moves == old(self).spec_data().total_moves,
    {
        self.recording = false;
        let now = Game::get_current_time();
        self.replay_data.duration = if now >= self.replay_data.metadata.created_at {
            now - self.replay_data.metadata.created_at
        } else {
            0
        };
        self.replay_data.clone()
    }

    /// The game being recorded.
    pub fn game(&self) -> (r: &Game)
        ensures
            *r == self.spec_game(),
    {
        &self.game
    }

    /// The replay built so far.
    pub fn replay_data(&self) -> (r: &ReplayData)
        ensures
            *r == self.spec_data(),
    {
        &self.replay_data
    }

    /// Replace the replay metadata.
    pub fn set_metadata(&mut self, metadata: ReplayMetadata)
        ensures
            final(self).spec_data().metadata == metadata,
            final(self).spec_game() == old(self).spec_game(),
            final(self).spec_recording() == old(self).spec_recording(),
    {
        self.replay_data.metadata = metadata;
    }
}

/// Plays a recorded replay back through a fresh game, move by move.
pub struct ReplayPlayer {
    /// Replay data to play.
    replay_data: ReplayData,
    /// Current position in the replay.
    current_move: usize,
    /// Current game state.
    current_game: Game,
    /// Whether the replay is playing.
    playing: bool,
}

impl ReplayPlayer {
    /// The replay being played, for use in contracts.
    pub closed spec fn spec_data(&self) -> ReplayData {
        self.replay_data
    }

    /// The playback position, for use in contracts.
    pub closed spec fn spec_pos(&self) -> int {
        self.current_move as int
    }

    /// The game the playback has reached, for use in contracts.
    pub closed spec fn spec_game(&self) -> Game {
        self.current_game
    }

    /// Whether playback is running, for use in contracts.
    pub closed spec fn spec_playing(&self) -> bool {
        self.playing
    }

    /// The player invariant: a well-formed playback game of the replay's
    /// configuration, and a position inside the replay.
    pub open spec fn wf(&self) -> bool {
        &&& self.spec_game().wf()
        &&& self.spec_game().spec_config() == self.spec_data().config
        &&& self.spec_data().config.board_size >= 1
        &&& self.spec_data().config.board_size * self.spec_data().config.board_size <= usize::MAX
        &&& self.spec_pos() <= self.spec_data().moves@.len()
    }

    /// Create a player positioned at the start of the replay. Fails
    /// exactly when the replay's board size is zero.
    pub fn new(replay_data: ReplayData) -> (r: GameResult<Self>)
        requires
            replay_data.config.board_size * replay_data.config.board_size <= usize::MAX,
        ensures
            replay_data.config.board_size == 0 ==> r is Err,
            replay_data.config.board_size >= 1 ==> (r matches Ok(p) && p.wf() && p.spec_pos() == 0
                && !p.spec_playing()),
    {
        let current_game = match Game::new(replay_data.config) {
            Ok(g) => g,
            Err(e) => {
                return Err(e);
            },
        };
        Ok(Self { replay_data, current_move: 0, current_game, playing: false })
    }

    /// Start playing the replay.
    pub fn play(&mut self)
        ensures
            final(self).spec_playing(),
            final(self).spec_data() == old(self).spec_data(),
            final(self).spec_pos() == old(self).spec_pos(),
            final(self).spec_game() == old(self).spec_game(),
    {
        self.playing = true;
    }

    /// Pause the replay.
    pub fn pause(&mut self)
        ensures
            !final(self).spec_playing(),
            final(self).spec_data() == old(self).spec_data(),
            final(self).spec_pos() == old(self).spec_pos(),
            final(self).spec_game() == old(self).spec_game(),
    {
        self.playing = false;
    }

    /// Stop the replay and reset it to the beginning.
    pub fn stop(&mut self)
        requires
            old(self).wf(),
        ensures
            final(self).wf(),
            !final(self).spec_playing(),
            final(self).spec_pos() == 0,
            final(self).spec_data() == old(self).spec_data(),
    {
        self.playing = false;
        self.current_move = 0;
        self.reset_game();
    }

    /// Apply the next recorded move. Returns `false` at the end of the
    /// replay; fails when the playback game rejects the move.
    pub fn next_move(&mut self) -> (r: GameResult<bool>)
        requires
            old(self).wf(),
        ensures
            final(self).wf(),
            final(self).spec_data() == old(self).spec_data(),
            old(self).spec_pos() >= old(self).spec_data().moves@.len() ==> r == GameResult::<
                bool,
            >::Ok(false) && *final(self) == *old(self),
            old(self).spec_pos() < old(self).spec_data().moves@.len() && r is Ok ==> final(self).spec_pos() == old(self).spec_pos() + 1,
            (old(self).spec_pos() < old(self).spec_data().moves@.len() && old(self).spec_game().spec_state() == GameState::Playing) ==> r == GameResult::<bool>::Ok(true),
            r is Err ==> *final(self) == *old(self),
    {
        if self.current_move >= self.replay_data.moves.len() {
            return Ok(false);
        }
        let direction = self.replay_data.moves[self.current_move].direction;
        match self.current_game.make_move(direction) {
            Ok(_) => {},
            Err(e) => {
                return Err(e);
            },
        }
        self.current_move += 1;
        Ok(true)
    }

    /// Step one move back by replaying from the start.
    pub fn previous_move(&mut self) -> (r: GameResult<bool>)
        requires
            old(self).wf(),
        ensures
            final(self).wf(),
            final(self).spec_data() == old(self).spec_data(),
            old(self).spec_pos() == 0 ==> r == GameResult::<bool>::Ok(false) && *final(self)
                == *old(self),
            old(self).spec_pos() > 0 && r is Ok ==> final(self).spec_pos() == old(self).spec_pos()
                - 1,
            old(self).spec_pos() > 0 && r is Err ==> final(self).spec_pos() == old(self).spec_pos()
                - 1,
    {
        if self.current_move == 0 {
            return Ok(false);
        }
        let target = self.current_move - 1;
        self.current_move = target;
        match self.reset_to_move(target) {
            Ok(()) => Ok(true),
            Err(e) => Err(e),
        }
    }

    /// Jump to a position in the replay by replaying from the start.
    /// Fails when the position lies beyond the end of the replay.
    pub fn go_to_move(&mut self, move_index: usize) -> (r: GameResult<bool>)
        requires
            old(self).wf(),
        ensures
            final(self).wf(),
            final(self).spec_data() == old(self).spec_data(),
            move_index > old(self).spec_data().moves@.len() ==> r is Err && *final(self) == *old(self),
            move_index <= old(self).spec_data().moves@.len() && r is Ok ==> final(self).spec_pos()
                == move_index,
            move_index <= old(self).spec_data().moves@.len() && r is Err ==> final(self).spec_pos()
                == move_index,
    {
        if move_index > self.replay_data.moves.len() {
            return Err(GameError::InvalidOperation("Move index out of bounds".to_string()));
        }
        self.current_move = move_index;
        match self.reset_to_move(move_index) {
            Ok(()) => Ok(true),
            Err(e) => Err(e),
        }
    }

    /// Reset the playback game to the initial state.
    fn reset_game(&mut self)
        requires
            old(self).wf(),
        ensures
            final(self).wf(),
            final(self).spec_data() == old(self).spec_data(),
            final(self).spec_pos() == old(self).spec_pos(),
            final(self).spec_playing() == old(self).spec_playing(),
    {
        match Game::new(self.replay_data.config) {
            Ok(g) => {
                self.current_game = g;
            },
            Err(_) => {},
        }
    }

    /// Reset the playback game and replay the first `move_index` moves.
    fn reset_to_move(&mut self, move_index: usize) -> (r: GameResult<()>)
        requires
            old(self).wf(),
            move_index <= old(self).spec_data().moves@.len(),
        ensures
            final(self).wf(),
            final(self).spec_data() == old(self).spec_data(),
            final(self).spec_pos() == old(self).spec_pos(),
            final(self).spec_playing() == old(self).spec_playing(),
    {
        self.reset_game();
        let mut i: usize = 0;
        while i < move_index
            invariant
                self.wf(),
                move_index <= self.spec_data().moves@.len(),
                i <= move_index,
                self.spec_data() == old(self).spec_data(),
                self.spec_pos() == old(self).spec_pos(),
                self.spec_playing() == old(self).spec_playing(),
            decreases move_index - i,
        {
            let direction = self.replay_data.moves[i].direction;
            match self.current_game.make_move(direction) {
                Ok(_) => {},
                Err(e) => {
                    return Err(e);
                },
            }
            i += 1;
        }
        Ok(())
    }

    /// The game the playback has reached.
    pub fn current_game(&self) -> (r: &Game)
        ensures
            *r == self.spec_game(),
    {
        &self.current_game
    }

    /// The playback position.
    pub fn current_move_index(&self) -> (r: usize)
        ensures
            r == self.spec_pos(),
    {
        self.current_move
    }

    /// The number of recorded moves.
    pub fn total_moves(&self) -> (r: usize)
        ensures
            r == self.spec_data().moves@.len(),
    {
        self.replay_data.moves.len()
    }

    /// The replay being played.
    pub fn replay_data(&self) -> (r: &ReplayData)
        ensures
            *r == self.spec_data(),
    {
        &self.replay_data
    }

    /// Whether the playback has reached the end of the replay.
    pub fn is_finished(&self) -> (r: bool)
        ensures
            r == (self.spec_pos() >= self.spec_data().moves@.len()),
    {
        self.current_move >= self.replay_data.moves.len()
    }

    /// Whether playback is running.
    pub fn is_playing(&self) -> (r: bool)
        ensures
            r == self.spec_playing(),
    {
        self.playing
    }
}

/// Holds a collection of finished replays.
pub struct ReplayManager {
    /// List of saved replays.
    replays: Vec<ReplayData>,
}

impl ReplayManager {
    /// The stored replays, for use in contracts.
    pub closed spec fn spec_replays(&self) -> Seq<ReplayData> {
        self.replays@
    }

    /// Create an empty replay manager.
    pub fn new() -> (m: Self)
        ensures
            m.spec_replays().len() == 0,
    {
        Self { replays: Vec::new() }
    }

    /// Add a replay to the collection.
    pub fn add_replay(&mut self, replay: ReplayData)
        ensures
            final(self).spec_replays() == old(self).spec_replays().push(replay),
    {
        self.replays.push(replay);
    }

    /// All stored replays.
    pub fn get_replays(&self) -> (r: &[ReplayData])
        ensures
            r@ == self.spec_replays(),
    {
        self.replays.as_slice()
    }

    /// The replay at an index, if there is one.
    pub fn get_replay(&self, index: usize) -> (r: Option<&ReplayData>)
        ensures
            index < self.spec_replays().len() ==> (r matches Some(d) && *d == self.spec_replays()[index as int]),
            index >= self.spec_replays().len() ==> r is None,
    {
        if index < self.replays.len() {
            Some(&self.replays[index])
        } else {
            None
        }
    }

    /// Remove and return the replay at an index, if there is one; the
    /// replays behind it move up.
    pub fn remove_replay(&mut self, index: usize) -> (r: Option<ReplayData>)
        ensures
            index < old(self).spec_replays().len() ==> (r matches Some(d) && d == old(self).spec_replays()[index as int] && final(self).spec_replays() == old(self).spec_replays().remove(index as int)),
            index >= old(self).spec_replays().len() ==> r is None && final(self).spec_replays()
                == old(self).spec_replays(),
    {
        if index < self.replays.len() {
            Some(self.replays.remove(index))
        } else {
            None
        }
    }

    /// Discard every stored replay.
    pub fn clear_replays(&mut self)
        ensures
            final(self).spec_replays().len() == 0,
    {
        self.replays.clear();
    }

    /// How many replays are stored.
    pub fn replay_count(&self) -> (r: usize)
        ensures
            r == self.spec_replays().len(),
    {
        self.replays.len()
    }
}

impl Default for ReplayManager {
    fn default() -> (m: Self)
        ensures
            m.spec_replays().len() == 0,
    {
        Self::new()
    }
}

} // verus!
