//! Whole games played by beam search.

use vstd::prelude::*;
use crate::beam::beam_choice;
use crate::generate::{generated, END_TURN};
use crate::model::{board_total, lemma_board_nonneg, lemma_some_move, lemma_step, Maze};
use crate::search::SearchError;
use crate::state::MazeState;

verus! {

/// The state at the end of the game that goes on from `s` with the moves
/// that beam search chooses. Where the search finds no move, the game
/// stays where it is.
pub open spec fn beam_end(s: Maze, width: nat, depth: nat) -> Maze
    decreases s.end_turn - s.turn,
{
    if s.turn >= s.end_turn {
        s
    } else {
        match beam_choice(s, width, depth) {
            Some(action) => beam_end(s.step(action as int), width, depth),
            None => s,
        }
    }
}

/// No generated game ends with a score above this.
pub const SCORE_BOUND: i64 = 99;

impl MazeState {
    /// Plays the game to its end: as long as it is not over, the move that
    /// [`MazeState::beam_search_action`] chooses is made. Where the search
    /// refuses the first move, nothing is changed.
    pub fn play_beam(&mut self, beam_width: usize, beam_depth: usize) -> (played: Result<
        (),
        SearchError,
    >)
        requires
            old(self)@.wf(),
        ensures
            final(self)@.wf(),
            final(self)@.game_score + board_total(final(self)@.points) == old(self)@.game_score
                + board_total(old(self)@.points),
            match played {
                Ok(()) => {
                    &&& final(self)@.terminal()
                    &&& final(self)@ == beam_end(old(self)@, beam_width as nat, beam_depth as nat)
                    &&& old(self)@.terminal() || (beam_width > 0 && beam_depth > 0)
                },
                Err(SearchError::InvalidParameters) => {
                    &&& !old(self)@.terminal()
                    &&& beam_width == 0 || beam_depth == 0
                    &&& final(self)@ == old(self)@
                },
                Err(SearchError::NoLegalActions) => {
                    &&& !old(self)@.terminal()
                    &&& beam_width > 0 && beam_depth > 0
                    &&& old(self)@.legal_actions().len() == 0
                    &&& final(self)@ == old(self)@
                },
                Err(SearchError::GameOver) => false,
            },
    {
        let ghost start = self@;
        while !self.is_done()
            invariant
                start == old(self)@,
                start.wf(),
                self@.wf(),
                self@.height() == start.height(),
                self@.width() == start.width(),
                self@.end_turn == start.end_turn,
                self@.turn >= start.turn,
                self@.game_score + board_total(self@.points) == start.game_score + board_total(
                    start.points,
                ),
                beam_end(self@, beam_width as nat, beam_depth as nat) == beam_end(
                    start,
                    beam_width as nat,
                    beam_depth as nat,
                ),
                self@ != start ==> beam_width > 0 && beam_depth > 0 && start.legal_actions().len()
                    > 0,
                self@ == start || !start.terminal(),
            decreases self@.end_turn - self@.turn,
        {
            let ghost now = self@;
            proof {
                lemma_some_move(now);
                lemma_some_move(start);
            }
            match self.beam_search_action(beam_width, beam_depth) {
                Ok(action) => {
                    proof {
                        lemma_step(now, action as int);
                    }
                    self.advance(action);
                },
                Err(fault) => {
                    return Err(fault);
                },
            }
        }
        Ok(())
    }
}

/// The sum of the scores with which the games of `games` end when each is
/// played to its end by a beam search of the given width and depth.
pub open spec fn final_scores(games: Seq<Maze>, width: nat, depth: nat) -> int
    decreases games.len(),
{
    if games.len() == 0 {
        0
    } else {
        final_scores(games.drop_last(), width, depth) + beam_end(games.last(), width, depth).game_score
    }
}

/// `total` is what `games` score together: they are `game_number`
/// generated games, and `total` is the sum of the scores with which they
/// end under a beam search of width two that looks to the end of the game.
pub open spec fn is_score_of(games: Seq<Maze>, game_number: usize, total: int) -> bool {
    &&& games.len() == game_number
    &&& forall|k: int| 0 <= k < games.len() ==> generated(#[trigger] games[k])
    &&& total == final_scores(games, 2, END_TURN as nat)
}

/// The sum of the final scores of the generated games of the seeds below
/// `game_number`, each played to its end by a beam search of width two that
/// looks to the end of the game. Which games the seeds give is not known
/// here: the total is that of some `game_number` generated games, and
/// whatever is generated, no game adds more than `SCORE_BOUND`.
pub fn beam_score_total(game_number: usize) -> (total: i64)
    requires
        game_number * SCORE_BOUND <= i64::MAX,
    ensures
        exists|games: Seq<Maze>| is_score_of(games, game_number, total as int),
        0 <= total <= game_number * SCORE_BOUND,
{
    let mut total_score: i64 = 0;
    let mut i: usize = 0;
    let ghost mut games: Seq<Maze> = Seq::empty();
    while i < game_number
        invariant
            i <= game_number,
            game_number * SCORE_BOUND <= i64::MAX,
            0 <= total_score <= i * SCORE_BOUND,
            is_score_of(games, i, total_score as int),
        decreases game_number - i,
    {
        let mut state = MazeState::from_seed(i as u64);
        let ghost game = state@;
        proof {
            crate::generate::lemma_generated_total(game);
            lemma_some_move(game);
        }
        let played = state.play_beam(2, END_TURN);
        proof {
            assert(played is Ok);
            lemma_board_nonneg(state@);
            assert(games.push(game).drop_last() =~= games);
            games = games.push(game);
        }
        total_score += state.game_score();
        i += 1;
    }
    total_score
}

} // verus!
