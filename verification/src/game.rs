//! Teams, player profiles, and the per-turn transition of a game.

use vstd::prelude::*;

use crate::board::Board;
use crate::board::CellPos;
use crate::board::cell_at;
use crate::board::first_win;
use crate::board::in_range;
use crate::board::index_of;
use crate::board::is_full;
use crate::board::pattern_seq;
use crate::bot::Difficulty;

verus! {

broadcast use crate::board::lemma_board_view_len;

/// One of the two sides of a game.
#[derive(Clone, Copy, Debug, PartialEq, Eq, Structural)]
pub enum Team {
    NOUGHTS,
    CROSSES,
}

/// The side that `t` plays against: the only other `Team` value.
pub open spec fn opponent(t: Team) -> Team {
    match t {
        Team::NOUGHTS => Team::CROSSES,
        Team::CROSSES => Team::NOUGHTS,
    }
}

impl Team {
    /// The single-character symbol that renders this team on the grid.
    pub fn glyph(&self) -> (s: &'static str)
        ensures
            *self == Team::NOUGHTS ==> s@ == "O"@,
            *self == Team::CROSSES ==> s@ == "X"@,
    {
        match self {
            Team::NOUGHTS => "O",
            Team::CROSSES => "X",
        }
    }

    /// The other team.
    pub fn other(&self) -> (t: Team)
        ensures
            t == opponent(*self),
    {
        match self {
            Team::NOUGHTS => Team::CROSSES,
            Team::CROSSES => Team::NOUGHTS,
        }
    }
}

/// Who chooses the moves of one side: a person, or the computer at a
/// given difficulty.
#[derive(Clone, Copy, Debug)]
pub enum Controller {
    HUMAN,
    COMPUTER(Difficulty),
}

impl Controller {
    /// The menu label that names this controller.
    pub fn label(&self) -> (s: &'static str)
        ensures
            *self is HUMAN ==> s@ == "Human"@,
            *self matches Controller::COMPUTER(d) && d is EASY ==> s@ == "Computer (easy)"@,
            *self matches Controller::COMPUTER(d) && d is HARD ==> s@ == "Computer (hard)"@,
    {
        match self {
            Controller::HUMAN => "Human",
            Controller::COMPUTER(Difficulty::EASY) => "Computer (easy)",
            Controller::COMPUTER(Difficulty::HARD) => "Computer (hard)",
        }
    }
}

/// One side of a game: a team and whoever controls it.
#[derive(Clone, Copy, Debug)]
pub struct Profile {
    pub team: Team,
    pub controller: Controller,
}

/// What a single move leaves behind: a finished game with a winner and the
/// completed pattern, a finished game with a full board and no winner, or a
/// game that goes on.
#[derive(Clone, Copy, Debug)]
pub enum TurnOutcome {
    Won(Team, [CellPos; 3]),
    Draw,
    Continue,
}

/// Applies one move and reports the resulting state of the game: a win is
/// detected before a draw, so a full board with a completed pattern counts
/// as a win.
pub fn play_turn(board: &mut Board, team: Team, pos: CellPos) -> (r: TurnOutcome)
    requires
        in_range(pos),
        cell_at(old(board)@, pos) is None,
    ensures
        final(board)@ == old(board)@.update(index_of(pos), Some(team)),
        r matches TurnOutcome::Won(t, p) ==> first_win(final(board)@) matches Some((t2, k)) && t
            == t2 && p@ == pattern_seq(k),
        r is Draw ==> first_win(final(board)@) is None && is_full(final(board)@),
        r is Continue ==> first_win(final(board)@) is None && !is_full(final(board)@),
{
    board.make_move(team, &pos);
    match board.check_for_win() {
        Some((winner, win_pattern)) => TurnOutcome::Won(winner, win_pattern),
        None => {
            if board.is_draw() {
                TurnOutcome::Draw
            } else {
                TurnOutcome::Continue
            }
        },
    }
}

} // verus!
