//! Score tracking: current score, best score, and the points of the most
//! recent merge.

use vstd::prelude::*;

verus! {

/// Score tracker. Invariant: `best >= current` after every update, and
/// `best` never decreases except through `reset_all`.
#[derive(Debug, Clone, Copy, PartialEq, Eq, Structural)]
pub struct Score {
    /// Current score.
    current: u32,
    /// Best score achieved.
    best: u32,
    /// Score gained from the most recent merge (0 if the last move
    /// caused no merge).
    last_move: u32,
}

impl Score {
    /// The current score, for use in contracts.
    pub closed spec fn spec_current(&self) -> u32 {
        self.current
    }

    /// The best score, for use in contracts.
    pub closed spec fn spec_best(&self) -> u32 {
        self.best
    }

    /// The points of the most recent merge, for use in contracts.
    pub closed spec fn spec_last_move(&self) -> u32 {
        self.last_move
    }

    /// The score invariant: the best score is never behind the current one.
    pub open spec fn wf(&self) -> bool {
        self.spec_best() >= self.spec_current()
    }

    /// Create a new score tracker.
    pub fn new() -> (s: Self)
        ensures
            s.spec_current() == 0,
            s.spec_best() == 0,
            s.spec_last_move() == 0,
            s.wf(),
    {
        Self { current: 0, best: 0, last_move: 0 }
    }

    /// Get current score.
    pub fn current(&self) -> (r: u32)
        ensures
            r == self.spec_current(),
    {
        self.current
    }

    /// Get best score.
    pub fn best(&self) -> (r: u32)
        ensures
            r == self.spec_best(),
    {
        self.best
    }

    /// Get score from last move.
    pub fn last_move(&self) -> (r: u32)
        ensures
            r == self.spec_last_move(),
    {
        self.last_move
    }

    /// Add points from a merge. The current score saturates at `u32::MAX`
    /// instead of wrapping; the best score follows the current score
    /// whenever the current score passes it.
    pub fn add_merge_points(&mut self, merged_value: u32)
        ensures
            final(self).spec_current() == spec_sat_add(old(self).spec_current(), merged_value as int),
            final(self).spec_best() == spec_max_u32(old(self).spec_best(), final(self).spec_current()),
            final(self).spec_last_move() == merged_value,
            final(self).spec_best() >= old(self).spec_best(),
            old(self).wf() ==> final(self).wf(),
    {
        self.last_move = merged_value;
        if self.current > u32::MAX - merged_value {
            self.current = u32::MAX;
        } else {
            self.current = self.current + merged_value;
        }
        if self.current > self.best {
            self.best = self.current;
        }
    }

    /// Reset current score (for a new game). The best score is preserved.
    pub fn reset_current(&mut self)
        ensures
            final(self).spec_current() == 0,
            final(self).spec_last_move() == 0,
            final(self).spec_best() == old(self).spec_best(),
            final(self).wf(),
    {
        self.current = 0;
        self.last_move = 0;
    }

    /// Reset all scores, the best score included.
    pub fn reset_all(&mut self)
        ensures
            final(self).spec_current() == 0,
            final(self).spec_best() == 0,
            final(self).spec_last_move() == 0,
            final(self).wf(),
    {
        self.current = 0;
        self.best = 0;
        self.last_move = 0;
    }

    /// The points awarded for a merge are exactly the merged (doubled) value.
    pub fn calculate_merge_score(merged_value: u32) -> (r: u32)
        ensures
            r == merged_value,
    {
        merged_value
    }

    /// Restore a snapshot taken before a move: the current score and the
    /// most-recent-merge record come back, while the best score keeps its
    /// high-water mark.
    pub(crate) fn restore(&mut self, snap: &Score)
        ensures
            final(self).spec_current() == snap.spec_current(),
            final(self).spec_last_move() == snap.spec_last_move(),
            final(self).spec_best() == spec_max_u32(old(self).spec_best(), snap.spec_best()),
    {
        self.current = snap.current;
        self.last_move = snap.last_move;
        if snap.best > self.best {
            self.best = snap.best;
        }
    }

    /// Clear the most-recent-merge record at the start of a move, before any
    /// merge of that move is scored.
    pub(crate) fn clear_last_move(&mut self)
        ensures
            final(self).spec_current() == old(self).spec_current(),
            final(self).spec_best() == old(self).spec_best(),
            final(self).spec_last_move() == 0,
    {
        self.last_move = 0;
    }

    /// Restore the most-recent-merge record after a move that turned out to
    /// be a no-op.
    pub(crate) fn set_last_move(&mut self, value: u32)
        ensures
            final(self).spec_current() == old(self).spec_current(),
            final(self).spec_best() == old(self).spec_best(),
            final(self).spec_last_move() == value,
    {
        self.last_move = value;
    }
}

impl Default for Score {
    fn default() -> (s: Self)
        ensures
            s.spec_current() == 0,
            s.spec_best() == 0,
            s.spec_last_move() == 0,
    {
        Self::new()
    }
}

/// Two scores with the same components are the same score.
pub proof fn lemma_score_ext(a: Score, b: Score)
    requires
        a.spec_current() == b.spec_current(),
        a.spec_best() == b.spec_best(),
        a.spec_last_move() == b.spec_last_move(),
    ensures
        a == b,
{
}

/// Unsigned 32-bit addition that saturates at `u32::MAX`.
pub open spec fn spec_sat_add(a: u32, b: int) -> u32 {
    if a + b > u32::MAX {
        u32::MAX
    } else {
        (a + b) as u32
    }
}

/// The larger of two 32-bit values.
pub open spec fn spec_max_u32(a: u32, b: u32) -> u32 {
    if a > b {
        a
    } else {
        b
    }
}

} // verus!
