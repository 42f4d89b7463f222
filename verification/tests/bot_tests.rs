use noughts_crosses::board::Board;
use noughts_crosses::board::CellPos;
use noughts_crosses::bot::Difficulty;
use noughts_crosses::bot::generate_move;
use noughts_crosses::game::Team;

fn pos(x: usize, y: usize) -> CellPos {
    CellPos { x, y }
}

#[test]
fn hard_bot_takes_the_winning_cell() {
    // NOUGHTS has two in the top row with (2, 0) free; CROSSES is scattered
    // without a threat.
    let mut board = Board::new();
    board.make_move(Team::NOUGHTS, &pos(0, 0));
    board.make_move(Team::NOUGHTS, &pos(1, 0));
    board.make_move(Team::CROSSES, &pos(0, 1));
    board.make_move(Team::CROSSES, &pos(2, 2));
    let chosen = generate_move(&board, Difficulty::HARD, Team::NOUGHTS);
    assert_eq!(chosen, pos(2, 0));
}

#[test]
fn hard_bot_blocks_the_opponent() {
    // CROSSES threatens the middle column at (1, 2); NOUGHTS has no
    // immediate win, so it must block.
    let mut board = Board::new();
    board.make_move(Team::CROSSES, &pos(1, 0));
    board.make_move(Team::CROSSES, &pos(1, 1));
    board.make_move(Team::NOUGHTS, &pos(0, 1));
    let chosen = generate_move(&board, Difficulty::HARD, Team::NOUGHTS);
    assert_eq!(chosen, pos(1, 2));
}

#[test]
fn hard_bot_prefers_its_own_win_over_a_block() {
    // Both sides could complete a line; the bot takes its own win.
    let mut board = Board::new();
    board.make_move(Team::NOUGHTS, &pos(0, 1));
    board.make_move(Team::NOUGHTS, &pos(1, 1));
    board.make_move(Team::CROSSES, &pos(0, 0));
    board.make_move(Team::CROSSES, &pos(1, 0));
    let chosen = generate_move(&board, Difficulty::HARD, Team::NOUGHTS);
    assert_eq!(chosen, pos(2, 1));
}

#[test]
fn hard_bot_takes_first_winning_cell_in_row_major_order() {
    // NOUGHTS can win at (2, 0) or at (0, 2); (2, 0) comes first in
    // row-major order among the free cells.
    let mut board = Board::new();
    board.make_move(Team::NOUGHTS, &pos(0, 0));
    board.make_move(Team::NOUGHTS, &pos(1, 0));
    board.make_move(Team::NOUGHTS, &pos(0, 1));
    board.make_move(Team::CROSSES, &pos(1, 1));
    board.make_move(Team::CROSSES, &pos(2, 2));
    let chosen = generate_move(&board, Difficulty::HARD, Team::NOUGHTS);
    assert_eq!(chosen, pos(2, 0));
}

#[test]
fn hard_bot_fallback_returns_a_free_cell() {
    // No immediate win or block for either side: the result must still be
    // one of the free cells.
    let mut board = Board::new();
    board.make_move(Team::NOUGHTS, &pos(0, 0));
    board.make_move(Team::CROSSES, &pos(1, 1));
    for _ in 0..50 {
        let chosen = generate_move(&board, Difficulty::HARD, Team::NOUGHTS);
        assert!(board.get_free_cells().contains(&chosen));
    }
}

#[test]
fn easy_bot_returns_a_free_cell() {
    let mut board = Board::new();
    board.make_move(Team::NOUGHTS, &pos(0, 0));
    board.make_move(Team::CROSSES, &pos(1, 0));
    board.make_move(Team::NOUGHTS, &pos(2, 1));
    for _ in 0..50 {
        let chosen = generate_move(&board, Difficulty::EASY, Team::CROSSES);
        assert!(board.get_cell(&chosen).is_none());
        assert!(board.get_free_cells().contains(&chosen));
    }
}

#[test]
fn easy_bot_finds_the_single_free_cell() {
    // With one free cell left, any valid sample must land on it.
    let mut board = Board::new();
    let teams = [Team::CROSSES, Team::NOUGHTS];
    let mut i = 0;
    for y in 0..3 {
        for x in 0..3 {
            if (x, y) != (1, 2) {
                board.make_move(teams[i % 2], &pos(x, y));
                i += 1;
            }
        }
    }
    for _ in 0..10 {
        let chosen = generate_move(&board, Difficulty::EASY, Team::CROSSES);
        assert_eq!(chosen, pos(1, 2));
    }
}
