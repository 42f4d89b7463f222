//! The 3x3 grid, its win patterns, and win/draw detection.

use vstd::prelude::*;

use crate::game::Team;

verus! {

broadcast use vstd::array::group_array_axioms;

/// Side length of the square grid.
pub const BOARD_SIZE: usize = 3;

/// A grid coordinate: `x` is the column, `y` the row, each in `[0, 3)`.
#[derive(Clone, Copy, Debug, PartialEq, Eq, Structural)]
pub struct CellPos {
    pub x: usize,
    pub y: usize,
}

/// Whether both coordinates of `pos` lie on the grid.
pub open spec fn in_range(pos: CellPos) -> bool {
    pos.x < 3 && pos.y < 3
}

/// The row-major index of an in-range position.
pub open spec fn index_of(pos: CellPos) -> int {
    pos.y * 3 + pos.x
}

/// The position whose row-major index is `i`.
pub open spec fn pos_of_index(i: int) -> CellPos {
    CellPos { x: (i % 3) as usize, y: (i / 3) as usize }
}

/// The cell of `grid` addressed by `pos`.
pub open spec fn cell_at(grid: Seq<Option<Team>>, pos: CellPos) -> Option<Team> {
    grid[index_of(pos)]
}

/// Cell `j` of win pattern `k`. Patterns are numbered in the canonical
/// order: rows 0..3, then columns 3..6, then the two diagonals 6 and 7.
pub open spec fn pattern_cell(k: int, j: int) -> CellPos {
    if k < 3 {
        CellPos { x: j as usize, y: k as usize }
    } else if k < 6 {
        CellPos { x: (k - 3) as usize, y: j as usize }
    } else if k == 6 {
        CellPos { x: j as usize, y: j as usize }
    } else {
        CellPos { x: (2 - j) as usize, y: j as usize }
    }
}

/// The three cells of win pattern `k`, in order.
pub open spec fn pattern_seq(k: int) -> Seq<CellPos> {
    seq![pattern_cell(k, 0), pattern_cell(k, 1), pattern_cell(k, 2)]
}

/// All three cells of pattern `k` are occupied by `t`.
pub open spec fn pattern_won_by(grid: Seq<Option<Team>>, k: int, t: Team) -> bool {
    &&& cell_at(grid, pattern_cell(k, 0)) == Some(t)
    &&& cell_at(grid, pattern_cell(k, 1)) == Some(t)
    &&& cell_at(grid, pattern_cell(k, 2)) == Some(t)
}

/// Some team owns all three cells of pattern `k`.
pub open spec fn pattern_won(grid: Seq<Option<Team>>, k: int) -> bool {
    pattern_won_by(grid, k, Team::NOUGHTS) || pattern_won_by(grid, k, Team::CROSSES)
}

/// The first win pattern with index at least `k` that is fully owned,
/// paired with its owner; `None` if there is none.
pub open spec fn first_win_from(grid: Seq<Option<Team>>, k: int) -> Option<(Team, int)>
    decreases 8 - k,
{
    if k < 0 || k >= 8 {
        None
    } else if pattern_won_by(grid, k, Team::NOUGHTS) {
        Some((Team::NOUGHTS, k))
    } else if pattern_won_by(grid, k, Team::CROSSES) {
        Some((Team::CROSSES, k))
    } else {
        first_win_from(grid, k + 1)
    }
}

/// The first fully owned win pattern of the grid in canonical order,
/// paired with its owner; `None` if no pattern is fully owned.
pub open spec fn first_win(grid: Seq<Option<Team>>) -> Option<(Team, int)> {
    first_win_from(grid, 0)
}

/// Every cell of the grid is occupied.
pub open spec fn is_full(grid: Seq<Option<Team>>) -> bool {
    forall|i: int| 0 <= i < 9 ==> grid[i] is Some
}

/// The free positions among row-major indices `i` and up, in order.
pub open spec fn free_cells_from(grid: Seq<Option<Team>>, i: int) -> Seq<CellPos>
    decreases 9 - i,
{
    if i < 0 || i >= 9 {
        Seq::empty()
    } else if grid[i] is None {
        seq![pos_of_index(i)] + free_cells_from(grid, i + 1)
    } else {
        free_cells_from(grid, i + 1)
    }
}

/// All free positions of the grid, in row-major order.
pub open spec fn free_cells(grid: Seq<Option<Team>>) -> Seq<CellPos> {
    free_cells_from(grid, 0)
}

/// The 3x3 grid. Each cell holds the team that occupies it, or nothing.
#[derive(Clone, Copy)]
pub struct Board {
    cells: [Option<Team>; 9],
}

impl View for Board {
    type V = Seq<Option<Team>>;

    closed spec fn view(&self) -> Seq<Option<Team>> {
        self.cells@
    }
}

/// A board's view always has exactly one entry per grid cell.
pub broadcast proof fn lemma_board_view_len(b: Board)
    ensures
        (#[trigger] b@).len() == 9,
{
}

impl Board {
    /// An empty board: no cell is occupied.
    pub fn new() -> (b: Board)
        ensures
            b@.len() == 9,
            forall|i: int| 0 <= i < 9 ==> b@[i] is None,
    {
        Board { cells: [None; 9] }
    }

    /// The team occupying `pos`, if any.
    pub fn get_cell(&self, pos: &CellPos) -> (r: Option<Team>)
        requires
            in_range(*pos),
        ensures
            r == cell_at(self@, *pos),
    {
        self.cells[pos.y * BOARD_SIZE + pos.x]
    }

    /// Sets `pos` to hold `team` (or clears it), leaving every other cell as it was.
    fn set_cell(&mut self, team: Option<Team>, pos: &CellPos)
        requires
            in_range(*pos),
        ensures
            final(self)@ == old(self)@.update(index_of(*pos), team),
    {
        self.cells[pos.y * BOARD_SIZE + pos.x] = team;
    }

    /// Claims `pos` for `team`. The cell must currently be free.
    pub fn make_move(&mut self, team: Team, pos: &CellPos)
        requires
            in_range(*pos),
            cell_at(old(self)@, *pos) is None,
        ensures
            final(self)@ == old(self)@.update(index_of(*pos), Some(team)),
    {
        self.set_cell(Some(team), pos);
    }

    /// Whether `candidate` occupies all three cells of `pattern`.
    fn is_match(&self, pattern: &[CellPos; 3], candidate: Team) -> (r: bool)
        requires
            forall|j: int| 0 <= j < 3 ==> in_range(pattern@[j]),
        ensures
            r == (forall|j: int| 0 <= j < 3 ==> cell_at(self@, pattern@[j]) == Some(candidate)),
    {
        let mut j: usize = 0;
        while j < 3
            invariant
                j <= 3,
                forall|i: int| 0 <= i < 3 ==> in_range(pattern@[i]),
                forall|i: int| 0 <= i < j ==> cell_at(self@, pattern@[i]) == Some(candidate),
            decreases 3 - j,
        {
            let pos = pattern[j];
            match self.get_cell(&pos) {
                None => {
                    return false;
                },
                Some(team) => {
                    if team != candidate {
                        return false;
                    }
                },
            }
            j = j + 1;
        }
        true
    }

    /// Scans the 8 win patterns in canonical order and returns the first one
    /// fully owned by a single team, together with that team.
    pub fn check_for_win(&self) -> (r: Option<(Team, [CellPos; 3])>)
        ensures
            r is None <==> first_win(self@) is None,
            r matches Some((t, p)) ==> first_win(self@) matches Some((t2, k)) && t == t2 && p@
                == pattern_seq(k),
    {
        let mut k: usize = 0;
        while k < 8
            invariant
                k <= 8,
                first_win(self@) == first_win_from(self@, k as int),
            decreases 8 - k,
        {
            let pattern: [CellPos; 3] = [
                pattern_cell_at(k, 0),
                pattern_cell_at(k, 1),
                pattern_cell_at(k, 2),
            ];
            let p0 = pattern[0];
            match self.get_cell(&p0) {
                None => {
                    assert(!pattern_won(self@, k as int));
                },
                Some(team) => {
                    if self.is_match(&pattern, team) {
                        assert(pattern_won_by(self@, k as int, team));
                        assert(first_win(self@) == Some((team, k as int)));
                        assert(pattern@ =~= pattern_seq(k as int));
                        return Some((team, pattern));
                    }
                    assert(!pattern_won(self@, k as int));
                },
            }
            k = k + 1;
        }
        None
    }

    /// Simulates placing `team` at `pos` on a copy of this board and reports
    /// what `check_for_win` would then find. This board itself is untouched.
    pub fn check_for_potential_win(&self, team: Team, pos: &CellPos) -> (r: Option<
        (Team, [CellPos; 3]),
    >)
        requires
            in_range(*pos),
        ensures
            r is Some <==> wins_at(self@, team, *pos),
            r matches Some((t, p)) ==> first_win(self@.update(index_of(*pos), Some(team)))
                matches Some((t2, k)) && t == t2 && p@ == pattern_seq(k),
    {
        let mut board_copy: Board = self.clone();
        board_copy.set_cell(Some(team), pos);
        board_copy.check_for_win()
    }

    /// Whether every cell is occupied, whatever the win state.
    pub fn is_draw(&self) -> (r: bool)
        ensures
            r == is_full(self@),
    {
        let mut i: usize = 0;
        while i < 9
            invariant
                i <= 9,
                forall|j: int| 0 <= j < i ==> self@[j] is Some,
            decreases 9 - i,
        {
            match self.cells[i] {
                None => {
                    return false;
                },
                Some(_) => {},
            }
            i = i + 1;
        }
        true
    }

    /// All currently free positions, in row-major order (top row first,
    /// left to right within a row).
    pub fn get_free_cells(&self) -> (r: Vec<CellPos>)
        ensures
            r@ == free_cells(self@),
    {
        let mut collected: Vec<CellPos> = Vec::new();
        let mut i: usize = 0;
        while i < 9
            invariant
                i <= 9,
                collected@ + free_cells_from(self@, i as int) == free_cells(self@),
            decreases 9 - i,
        {
            let pos = CellPos { x: i % 3, y: i / 3 };
            assert(pos == pos_of_index(i as int));
            match self.get_cell(&pos) {
                None => {
                    let ghost before = collected@;
                    collected.push(pos);
                    assert(collected@ + free_cells_from(self@, i + 1) =~= before
                        + free_cells_from(self@, i as int));
                },
                Some(_) => {},
            }
            i = i + 1;
        }
        assert(collected@ =~= free_cells(self@));
        collected
    }
}

/// Cell `j` of win pattern `k`, as an executable value.
pub fn pattern_cell_at(k: usize, j: usize) -> (p: CellPos)
    requires
        k < 8,
        j < 3,
    ensures
        p == pattern_cell(k as int, j as int),
        in_range(p),
{
    if k < 3 {
        CellPos { x: j, y: k }
    } else if k < 6 {
        CellPos { x: k - 3, y: j }
    } else if k == 6 {
        CellPos { x: j, y: j }
    } else {
        CellPos { x: 2 - j, y: j }
    }
}

/// Placing `t` at `pos` would leave the grid with a fully owned win pattern.
pub open spec fn wins_at(grid: Seq<Option<Team>>, t: Team, pos: CellPos) -> bool {
    first_win(grid.update(index_of(pos), Some(t))) is Some
}

/// Maps a 1-based cell number (1 through 9, row-major) to its position;
/// any other number is rejected.
pub fn cell_from_index(choice: usize) -> (r: Option<CellPos>)
    ensures
        r is Some <==> 1 <= choice <= 9,
        r matches Some(p) ==> p == pos_of_index(choice - 1) && in_range(p),
{
    if 1 <= choice && choice <= 9 {
        Some(CellPos { x: (choice - 1) % BOARD_SIZE, y: (choice - 1) / BOARD_SIZE })
    } else {
        None
    }
}

/// The 1-based row-major number of a position, as shown on the rendered grid.
pub fn cell_number(pos: &CellPos) -> (n: usize)
    requires
        in_range(*pos),
    ensures
        n == index_of(*pos) + 1,
{
    pos.y * BOARD_SIZE + pos.x + 1
}

proof fn lemma_first_win_from(grid: Seq<Option<Team>>, k: int)
    requires
        0 <= k <= 8,
    ensures
        first_win_from(grid, k) is Some <==> exists|i: int| k <= i < 8 && pattern_won(grid, i),
        first_win_from(grid, k) matches Some((t, i)) ==> k <= i < 8 && pattern_won_by(grid, i, t)
            && forall|j: int| k <= j < i ==> !pattern_won(grid, j),
    decreases 8 - k,
{
    if k < 8 {
        lemma_first_win_from(grid, k + 1);
        if pattern_won(grid, k) {
            assert(exists|i: int| k <= i < 8 && pattern_won(grid, i));
        }
    }
}

/// A grid has a winner exactly when some pattern's three cells are occupied
/// by one and the same team, and the reported pattern is the first such one
/// in canonical order.
pub proof fn lemma_win_characterization(grid: Seq<Option<Team>>)
    ensures
        first_win(grid) is Some <==> exists|k: int| 0 <= k < 8 && pattern_won(grid, k),
        first_win(grid) matches Some((t, k)) ==> 0 <= k < 8 && pattern_won_by(grid, k, t)
            && forall|j: int| 0 <= j < k ==> !pattern_won(grid, j),
{
    lemma_first_win_from(grid, 0);
}

proof fn lemma_free_cells_from_membership(grid: Seq<Option<Team>>, i: int, pos: CellPos)
    requires
        0 <= i <= 9,
    ensures
        free_cells_from(grid, i).contains(pos) <==> (in_range(pos) && i <= index_of(pos) < 9
            && grid[index_of(pos)] is None),
    decreases 9 - i,
{
    if i < 9 {
        lemma_free_cells_from_membership(grid, i + 1, pos);
        assert(in_range(pos_of_index(i)) && index_of(pos_of_index(i)) == i);
        if in_range(pos) && index_of(pos) == i {
            assert(i % 3 == pos.x && i / 3 == pos.y) by (nonlinear_arith)
                requires
                    pos.x < 3,
                    pos.y < 3,
                    i == pos.y * 3 + pos.x,
            ;
            assert(pos_of_index(i) == pos);
        }
        if grid[i] is None {
            let tail = free_cells_from(grid, i + 1);
            let with_head = seq![pos_of_index(i)] + tail;
            assert(free_cells_from(grid, i) == with_head);
            if with_head.contains(pos) {
                let w = choose|w: int| 0 <= w < with_head.len() && #[trigger] with_head[w] == pos;
                if w == 0 {
                    assert(pos == pos_of_index(i));
                } else {
                    assert(tail[w - 1] == pos);
                    assert(tail.contains(pos));
                }
                assert(in_range(pos) && i <= index_of(pos) < 9 && grid[index_of(pos)] is None);
            }
            if in_range(pos) && i <= index_of(pos) < 9 && grid[index_of(pos)] is None {
                if index_of(pos) == i {
                    assert(with_head[0] == pos);
                } else {
                    assert(tail.contains(pos));
                    let w = choose|w: int| 0 <= w < tail.len() && #[trigger] tail[w] == pos;
                    assert(with_head[w + 1] == pos);
                }
                assert(with_head.contains(pos));
            }
        }
    }
}

/// A position is listed by `free_cells` exactly when it is on the grid and
/// its cell is unoccupied.
pub proof fn lemma_free_cells_membership(grid: Seq<Option<Team>>, pos: CellPos)
    ensures
        free_cells(grid).contains(pos) <==> (in_range(pos) && 0 <= index_of(pos) < 9
            && grid[index_of(pos)] is None),
{
    lemma_free_cells_from_membership(grid, 0, pos);
}

/// Position `pos` belongs to pattern `k`, and every other cell of that
/// pattern is already occupied by `t`: two in a line, with `pos` the third.
pub open spec fn completes_pattern(
    grid: Seq<Option<Team>>,
    t: Team,
    pos: CellPos,
    k: int,
) -> bool {
    &&& exists|j: int| 0 <= j < 3 && #[trigger] pattern_cell(k, j) == pos
    &&& forall|j: int|
        0 <= j < 3 && #[trigger] pattern_cell(k, j) != pos ==> cell_at(grid, pattern_cell(k, j))
            == Some(t)
}

proof fn lemma_pattern_cells_in_range()
    ensures
        forall|k: int, j: int|
            0 <= k < 8 && 0 <= j < 3 ==> in_range(#[trigger] pattern_cell(k, j)),
{
}

proof fn lemma_update_preserves_other_cells(grid: Seq<Option<Team>>, t: Team, pos: CellPos)
    requires
        grid.len() == 9,
        in_range(pos),
    ensures
        cell_at(grid.update(index_of(pos), Some(t)), pos) == Some(t),
        forall|q: CellPos|
            in_range(q) && q != pos ==> #[trigger] cell_at(
                grid.update(index_of(pos), Some(t)),
                q,
            ) == cell_at(grid, q),
{
    assert(forall|q: CellPos| in_range(q) && q != pos ==> index_of(q) != index_of(pos));
}

proof fn lemma_completion_wins(grid: Seq<Option<Team>>, t: Team, pos: CellPos, k: int)
    requires
        grid.len() == 9,
        in_range(pos),
        0 <= k < 8,
        completes_pattern(grid, t, pos, k),
    ensures
        wins_at(grid, t, pos),
{
    let updated = grid.update(index_of(pos), Some(t));
    lemma_pattern_cells_in_range();
    lemma_update_preserves_other_cells(grid, t, pos);
    assert forall|j: int| 0 <= j < 3 implies cell_at(updated, #[trigger] pattern_cell(k, j))
        == Some(t) by {
        let c = pattern_cell(k, j);
        if c != pos {
            assert(cell_at(updated, c) == cell_at(grid, c));
        }
    }
    assert(pattern_won_by(updated, k, t));
    lemma_win_characterization(updated);
    assert(pattern_won(updated, k));
}

/// On a board where no pattern is completed yet, a move by `t` wins exactly
/// when it fills the missing third cell of a pattern whose other two cells
/// `t` already owns.
pub proof fn lemma_wins_at_characterization(grid: Seq<Option<Team>>, t: Team, pos: CellPos)
    requires
        grid.len() == 9,
        in_range(pos),
        first_win(grid) is None,
    ensures
        wins_at(grid, t, pos) <==> exists|k: int|
            0 <= k < 8 && #[trigger] completes_pattern(grid, t, pos, k),
{
    let updated = grid.update(index_of(pos), Some(t));
    lemma_pattern_cells_in_range();
    lemma_update_preserves_other_cells(grid, t, pos);
    if wins_at(grid, t, pos) {
        lemma_win_characterization(grid);
        lemma_win_characterization(updated);
        let k = choose|k: int| 0 <= k < 8 && #[trigger] pattern_won(updated, k);
        if pattern_cell(k, 0) != pos && pattern_cell(k, 1) != pos && pattern_cell(k, 2) != pos {
            assert forall|j: int| 0 <= j < 3 implies cell_at(grid, #[trigger] pattern_cell(k, j))
                == cell_at(updated, pattern_cell(k, j)) by {
                assert(cell_at(updated, pattern_cell(k, j)) == cell_at(grid, pattern_cell(k, j)));
            }
            assert(pattern_won(grid, k));
            assert(false);
        } else {
            let j = if pattern_cell(k, 0) == pos {
                0int
            } else if pattern_cell(k, 1) == pos {
                1int
            } else {
                2int
            };
            assert(pattern_cell(k, j) == pos);
            if pattern_won_by(updated, k, Team::NOUGHTS) {
                assert(cell_at(updated, pattern_cell(k, j)) == Some(Team::NOUGHTS));
                assert(t == Team::NOUGHTS);
            } else {
                assert(cell_at(updated, pattern_cell(k, j)) == Some(Team::CROSSES));
                assert(t == Team::CROSSES);
            }
            assert(pattern_won_by(updated, k, t));
            assert forall|j2: int|
                0 <= j2 < 3 && #[trigger] pattern_cell(k, j2) != pos implies cell_at(
                grid,
                pattern_cell(k, j2),
            ) == Some(t) by {
                assert(cell_at(updated, pattern_cell(k, j2)) == cell_at(grid, pattern_cell(k, j2)));
            }
            assert(completes_pattern(grid, t, pos, k));
        }
    }
    if exists|k: int| 0 <= k < 8 && #[trigger] completes_pattern(grid, t, pos, k) {
        let k = choose|k: int| 0 <= k < 8 && #[trigger] completes_pattern(grid, t, pos, k);
        lemma_completion_wins(grid, t, pos, k);
    }
}

/// A grid that is not full has at least one free position.
pub proof fn lemma_free_cells_nonempty(grid: Seq<Option<Team>>)
    requires
        grid.len() == 9,
        !is_full(grid),
    ensures
        free_cells(grid).len() > 0,
{
    let i = choose|i: int| 0 <= i < 9 && !(grid[i] is Some);
    let pos = pos_of_index(i);
    assert(in_range(pos) && index_of(pos) == i);
    lemma_free_cells_membership(grid, pos);
    assert(free_cells(grid).contains(pos));
}

} // verus!
