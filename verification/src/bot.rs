//! Computer move selection: uniform random at EASY, a one-ply win/block
//! lookahead with a random fallback at HARD.

use vstd::prelude::*;

use rand::Rng;

use crate::board::Board;
use crate::board::CellPos;
use crate::board::free_cells;
use crate::board::is_full;
use crate::board::lemma_free_cells_membership;
use crate::board::lemma_free_cells_nonempty;
use crate::board::wins_at;
use crate::game::Team;
use crate::game::opponent;

verus! {

broadcast use crate::board::lemma_board_view_len;

/// How strong the computer opponent plays.
#[derive(Clone, Copy, Debug)]
pub enum Difficulty {
    EASY,
    HARD,
}

/// The first cell of `cells` whose occupation by `t` would complete a win
/// pattern of `grid`; `None` if there is no such cell.
pub open spec fn winning_move_from(
    grid: Seq<Option<Team>>,
    t: Team,
    cells: Seq<CellPos>,
) -> Option<CellPos>
    decreases cells.len(),
{
    if cells.len() == 0 {
        None
    } else if wins_at(grid, t, cells[0]) {
        Some(cells[0])
    } else {
        winning_move_from(grid, t, cells.drop_first())
    }
}

/// The first free cell of `grid`, in row-major order, where `t` could
/// complete a win pattern by playing; `None` if `t` has no immediate win.
pub open spec fn winning_move(grid: Seq<Option<Team>>, t: Team) -> Option<CellPos> {
    winning_move_from(grid, t, free_cells(grid))
}

proof fn lemma_winning_move_from_member(grid: Seq<Option<Team>>, t: Team, cells: Seq<CellPos>)
    ensures
        winning_move_from(grid, t, cells) matches Some(p) ==> cells.contains(p),
    decreases cells.len(),
{
    if cells.len() > 0 && !wins_at(grid, t, cells[0]) {
        lemma_winning_move_from_member(grid, t, cells.drop_first());
        let tail = cells.drop_first();
        if winning_move_from(grid, t, tail) is Some {
            let p = winning_move_from(grid, t, tail)->Some_0;
            let w = choose|w: int| 0 <= w < tail.len() && #[trigger] tail[w] == p;
            assert(cells[w + 1] == p);
        }
    }
}

/// A cell where a team could complete a win is one of the free cells.
pub proof fn lemma_winning_move_member(grid: Seq<Option<Team>>, t: Team)
    ensures
        winning_move(grid, t) matches Some(p) ==> free_cells(grid).contains(p),
{
    lemma_winning_move_from_member(grid, t, free_cells(grid));
}

/// Picks a move for `team` on `board`: at EASY a uniformly random free cell;
/// at HARD the first free cell that wins at once, else the first free cell
/// that blocks the opponent's immediate win, else a random free cell.
pub fn generate_move(board: &Board, difficulty: Difficulty, team: Team) -> (r: CellPos)
    requires
        !is_full(board@),
    ensures
        free_cells(board@).contains(r),
        difficulty is HARD && winning_move(board@, team) is Some ==> Some(r) == winning_move(
            board@,
            team,
        ),
        difficulty is HARD && winning_move(board@, team) is None && winning_move(
            board@,
            opponent(team),
        ) is Some ==> Some(r) == winning_move(board@, opponent(team)),
{
    match difficulty {
        Difficulty::EASY => generate_easy_move(board),
        Difficulty::HARD => generate_hard_move(board, team),
    }
}

fn generate_easy_move(board: &Board) -> (r: CellPos)
    requires
        !is_full(board@),
    ensures
        free_cells(board@).contains(r),
{
    let free = board.get_free_cells();
    proof {
        lemma_free_cells_nonempty(board@);
    }
    get_rand_from(&free)
}

fn get_rand_from(cells: &Vec<CellPos>) -> (r: CellPos)
    requires
        cells@.len() > 0,
    ensures
        cells@.contains(r),
{
    let rand_index = random_index(cells.len());
    let picked = cells[rand_index];
    proof {
        assert(cells@.contains(cells@[rand_index as int]));
    }
    picked
}

/// Relies on rand::thread_rng and rand::Rng::gen_range: sampling the
/// half-open range `0..n` yields a value below `n`, and panics only when
/// the range is empty, which the precondition rules out.
#[verifier::external_body]
fn random_index(n: usize) -> (r: usize)
    requires
        n > 0,
    ensures
        r < n,
{
    rand::thread_rng().gen_range(0..n)
}

fn generate_hard_move(board: &Board, team: Team) -> (r: CellPos)
    requires
        !is_full(board@),
    ensures
        free_cells(board@).contains(r),
        winning_move(board@, team) is Some ==> Some(r) == winning_move(board@, team),
        winning_move(board@, team) is None && winning_move(board@, opponent(team)) is Some ==> Some(
            r,
        ) == winning_move(board@, opponent(team)),
{
    let enemy_team = team.other();

    match find_imminent_win(board, team) {
        Some(win) => {
            proof {
                lemma_winning_move_member(board@, team);
            }
            return win;
        },
        None => {},
    }

    match find_imminent_win(board, enemy_team) {
        Some(block) => {
            proof {
                lemma_winning_move_member(board@, enemy_team);
            }
            return block;
        },
        None => {},
    }

    generate_easy_move(board)
}

fn find_imminent_win(board: &Board, team: Team) -> (r: Option<CellPos>)
    ensures
        r == winning_move(board@, team),
{
    let free = board.get_free_cells();
    proof {
        assert(free@.skip(0) =~= free@);
    }
    let mut i: usize = 0;
    while i < free.len()
        invariant
            free@ == free_cells(board@),
            i <= free@.len(),
            winning_move(board@, team) == winning_move_from(board@, team, free@.skip(i as int)),
        decreases free@.len() - i,
    {
        let cell = free[i];
        proof {
            assert(free@.contains(free@[i as int]));
            lemma_free_cells_membership(board@, cell);
            assert(free@.skip(i as int)[0] == cell);
        }
        match board.check_for_potential_win(team, &cell) {
            Some(_) => {
                return Some(cell);
            },
            None => {
                proof {
                    assert(free@.skip(i as int).drop_first() =~= free@.skip(i + 1));
                }
            },
        }
        i = i + 1;
    }
    proof {
        assert(free@.skip(free@.len() as int) =~= Seq::<CellPos>::empty());
    }
    None
}

} // verus!
