use minesweeper::{Board, BoardError};

fn layout(width: usize, height: usize, mines: &[(usize, usize)]) -> Vec<bool> {
    let mut cells = vec![false; width * height];
    for &(x, y) in mines {
        cells[y * width + x] = true;
    }
    cells
}

fn count_cells(board: &Board, pred: impl Fn(&minesweeper::Tile) -> bool) -> usize {
    let mut n = 0;
    for y in 0..board.get_height() as usize {
        for x in 0..board.get_width() as usize {
            if pred(&board.get_tile(x, y).unwrap()) {
                n += 1;
            }
        }
    }
    n
}

fn expected_adjacent(board: &Board, x: usize, y: usize) -> u8 {
    let (w, h) = (board.get_width() as i64, board.get_height() as i64);
    let mut n = 0;
    for dy in -1i64..=1 {
        for dx in -1i64..=1 {
            let (nx, ny) = (x as i64 + dx, y as i64 + dy);
            if (dx, dy) != (0, 0) && nx >= 0 && ny >= 0 && nx < w && ny < h {
                if board.get_tile(nx as usize, ny as usize).unwrap().is_mine {
                    n += 1;
                }
            }
        }
    }
    n
}

#[test]
fn new_places_exact_mine_count_uniform() {
    for &(w, h, m) in &[(10, 10, 5), (15, 15, 30), (25, 25, 50), (3, 3, 8), (1, 2, 1)] {
        let board = Board::new(w, h, m, true).unwrap();
        assert_eq!(count_cells(&board, |t| t.is_mine), m);
        assert_eq!(board.get_mines() as usize, m);
        assert_eq!(board.get_flags(), 0);
        assert_eq!(board.get_score(), 0);
        assert!(board.is_pure_random());
        assert!(!board.placement_fell_back());
    }
}

#[test]
fn new_places_exact_mine_count_weighted() {
    for &(w, h, m) in &[(10, 10, 5), (15, 15, 30), (25, 25, 50), (3, 3, 8), (4, 4, 0)] {
        let board = Board::new(w, h, m, false).unwrap();
        assert_eq!(count_cells(&board, |t| t.is_mine), m);
        assert_eq!(count_cells(&board, |t| t.is_revealed || t.is_flagged), 0);
        assert!(!board.is_pure_random());
    }
}

#[test]
fn adjacency_matches_neighbours() {
    for pure in [true, false] {
        let board = Board::new(12, 9, 30, pure).unwrap();
        for y in 0..9 {
            for x in 0..12 {
                assert_eq!(board.get_tile(x, y).unwrap().adjacent_mines, expected_adjacent(&board, x, y));
            }
        }
    }
}

#[test]
fn adjacency_of_given_layout() {
    let board = Board::with_mines(3, 3, &layout(3, 3, &[(0, 0)])).unwrap();
    assert_eq!(board.get_tile(1, 0).unwrap().adjacent_mines, 1);
    assert_eq!(board.get_tile(0, 1).unwrap().adjacent_mines, 1);
    assert_eq!(board.get_tile(1, 1).unwrap().adjacent_mines, 1);
    assert_eq!(board.get_tile(2, 2).unwrap().adjacent_mines, 0);
    let full = Board::with_mines(3, 3, &layout(3, 3, &[(0, 0), (1, 0), (2, 0), (0, 1), (2, 1), (0, 2), (1, 2), (2, 2)])).unwrap();
    assert_eq!(full.get_tile(1, 1).unwrap().adjacent_mines, 8);
}

#[test]
fn invalid_configurations_are_refused() {
    assert_eq!(Board::new(3, 3, 9, true).err(), Some(BoardError::InvalidConfiguration));
    assert_eq!(Board::new(3, 3, 10, false).err(), Some(BoardError::InvalidConfiguration));
    assert_eq!(Board::new(0, 3, 0, true).err(), Some(BoardError::InvalidConfiguration));
    assert_eq!(Board::new(3, 0, 0, true).err(), Some(BoardError::InvalidConfiguration));
    assert_eq!(Board::new(256, 3, 1, true).err(), Some(BoardError::InvalidConfiguration));
    assert_eq!(Board::new(30, 30, 256, true).err(), Some(BoardError::InvalidConfiguration));
    assert!(Board::new(255, 255, 255, true).is_ok());
    assert!(Board::new(1, 1, 0, false).is_ok());
    assert_eq!(Board::with_mines(3, 3, &vec![false; 8]).err(), Some(BoardError::InvalidConfiguration));
    assert_eq!(Board::with_mines(2, 2, &vec![true; 4]).err(), Some(BoardError::InvalidConfiguration));
}

#[test]
fn out_of_bounds_is_refused() {
    let mut board = Board::with_mines(3, 4, &layout(3, 4, &[(0, 0)])).unwrap();
    assert_eq!(board.select_tile(3, 0), Err(BoardError::OutOfBounds));
    assert_eq!(board.select_tile(0, 4), Err(BoardError::OutOfBounds));
    assert_eq!(board.flag_tile(5, 5), Err(BoardError::OutOfBounds));
    assert_eq!(board.get_tile(0, 4).err(), Some(BoardError::OutOfBounds));
    assert!(board.get_tile(2, 3).is_ok());
    assert_eq!(count_cells(&board, |t| t.is_revealed || t.is_flagged), 0);
}

#[test]
fn corner_mine_board_opens_all_safe_cells() {
    // Only the three cells touching (0, 0) count a mine; (2, 2) counts none.
    let mut board = Board::with_mines(3, 3, &layout(3, 3, &[(0, 0)])).unwrap();
    assert_eq!(board.select_tile(2, 2), Ok(false));
    assert_eq!(count_cells(&board, |t| t.is_revealed), 8);
    assert!(!board.get_tile(0, 0).unwrap().is_revealed);
    assert_eq!(board.get_score(), 8);
    assert_eq!(board.select_tile(0, 0), Ok(true));
    assert!(board.get_tile(0, 0).unwrap().is_revealed);
    assert_eq!(board.get_score(), 8);
}

#[test]
fn numbered_cell_reveals_only_itself() {
    // With the mine in the centre every other cell counts exactly one mine.
    let mut board = Board::with_mines(3, 3, &layout(3, 3, &[(1, 1)])).unwrap();
    assert_eq!(board.get_tile(2, 2).unwrap().adjacent_mines, 1);
    assert_eq!(board.select_tile(2, 2), Ok(false));
    assert_eq!(count_cells(&board, |t| t.is_revealed), 1);
    assert_eq!(board.get_score(), 1);
    assert_eq!(board.select_tile(1, 1), Ok(true));
    assert_eq!(board.get_score(), 1);
}

#[test]
fn empty_board_opens_entirely() {
    for &(x, y) in &[(2, 2), (0, 0), (4, 1)] {
        let mut board = Board::new(5, 5, 0, true).unwrap();
        assert_eq!(board.select_tile(x, y), Ok(false));
        assert_eq!(count_cells(&board, |t| t.is_revealed), 25);
        assert_eq!(board.get_score(), 25);
        assert!(board.is_win());
    }
}

#[test]
fn second_reveal_changes_nothing() {
    let mut board = Board::with_mines(4, 4, &layout(4, 4, &[(0, 0), (3, 3)])).unwrap();
    assert_eq!(board.select_tile(1, 2), Ok(false));
    let score = board.get_score();
    let revealed = count_cells(&board, |t| t.is_revealed);
    assert_eq!(board.select_tile(1, 2), Ok(false));
    assert_eq!(board.get_score(), score);
    assert_eq!(count_cells(&board, |t| t.is_revealed), revealed);
    assert!(board.get_tile(1, 2).unwrap().is_revealed);
}

#[test]
fn flood_stops_at_numbered_border() {
    // A wall of mines in column 2 splits the board; the flood from the left
    // stops at column 1, whose cells count mines.
    let mines: Vec<(usize, usize)> = (0..5).map(|y| (2, y)).collect();
    let mut board = Board::with_mines(5, 5, &layout(5, 5, &mines)).unwrap();
    assert_eq!(board.select_tile(0, 0), Ok(false));
    for y in 0..5 {
        assert!(board.get_tile(0, y).unwrap().is_revealed);
        assert!(board.get_tile(1, y).unwrap().is_revealed);
        for x in 2..5 {
            assert!(!board.get_tile(x, y).unwrap().is_revealed);
        }
    }
    assert_eq!(board.get_score(), 10);
}

#[test]
fn flood_skips_flagged_cells() {
    let mut board = Board::with_mines(5, 1, &layout(5, 1, &[(4, 0)])).unwrap();
    assert_eq!(board.flag_tile(1, 0), Ok(()));
    assert_eq!(board.select_tile(0, 0), Ok(false));
    assert_eq!(count_cells(&board, |t| t.is_revealed), 1);
    assert!(!board.get_tile(1, 0).unwrap().is_revealed);
    assert_eq!(board.select_tile(1, 0), Ok(false));
    assert!(!board.get_tile(1, 0).unwrap().is_revealed);
}

#[test]
fn flag_budget_blocks_only_new_flags() {
    let mut board = Board::with_mines(3, 3, &layout(3, 3, &[(0, 0), (2, 2)])).unwrap();
    assert_eq!(board.flag_tile(0, 0), Ok(()));
    assert_eq!(board.flag_tile(1, 1), Ok(()));
    assert_eq!(board.get_flags(), 2);
    assert_eq!(board.flag_tile(2, 2), Ok(()));
    assert!(!board.get_tile(2, 2).unwrap().is_flagged);
    assert_eq!(board.get_flags(), 2);
    assert_eq!(board.flag_tile(1, 1), Ok(()));
    assert!(!board.get_tile(1, 1).unwrap().is_flagged);
    assert_eq!(board.get_flags(), 1);
    assert_eq!(board.flag_tile(2, 2), Ok(()));
    assert!(board.get_tile(2, 2).unwrap().is_flagged);
    assert_eq!(board.get_flags(), 2);
}

#[test]
fn revealed_cells_cannot_be_flagged() {
    let mut board = Board::with_mines(3, 3, &layout(3, 3, &[(1, 1)])).unwrap();
    assert_eq!(board.select_tile(0, 0), Ok(false));
    assert_eq!(board.flag_tile(0, 0), Ok(()));
    assert!(!board.get_tile(0, 0).unwrap().is_flagged);
    assert_eq!(board.get_flags(), 0);
}

#[test]
fn win_ignores_flags_and_hidden_mines() {
    let mut board = Board::with_mines(3, 1, &layout(3, 1, &[(1, 0)])).unwrap();
    assert!(!board.is_win());
    assert_eq!(board.select_tile(0, 0), Ok(false));
    assert!(!board.is_win());
    assert_eq!(board.select_tile(2, 0), Ok(false));
    assert!(board.is_win());
    assert_eq!(board.flag_tile(1, 0), Ok(()));
    assert!(board.is_win());
}

#[test]
fn win_check_stamps_end_once() {
    let mut board = Board::with_mines(3, 1, &layout(3, 1, &[(2, 0)])).unwrap();
    assert!(board.get_end_time().is_none());
    assert!(!board.is_win());
    let first = board.get_end_time().unwrap();
    assert!(first >= board.get_start_time());
    assert!(!board.is_win());
    board.on_lost();
    assert_eq!(board.get_end_time(), Some(first));
}

#[test]
fn loss_reveals_mines_and_rewards_flags() {
    let mut board = Board::with_mines(4, 1, &layout(4, 1, &[(0, 0), (3, 0)])).unwrap();
    assert_eq!(board.flag_tile(0, 0), Ok(()));
    assert_eq!(board.select_tile(1, 0), Ok(false));
    assert_eq!(board.get_score(), 1);
    assert_eq!(board.select_tile(3, 0), Ok(true));
    assert!(board.can_record_loss());
    board.on_lost();
    assert_eq!(board.get_score(), 11);
    assert!(board.get_tile(0, 0).unwrap().is_revealed);
    assert!(board.get_tile(3, 0).unwrap().is_revealed);
    assert!(!board.get_tile(2, 0).unwrap().is_revealed);
    board.on_lost();
    assert_eq!(board.get_score(), 21);
}

#[test]
fn loss_without_flags_adds_nothing() {
    let mut board = Board::with_mines(3, 3, &layout(3, 3, &[(0, 0), (2, 2)])).unwrap();
    board.on_lost();
    assert_eq!(board.get_score(), 0);
    assert_eq!(count_cells(&board, |t| t.is_revealed), 2);
    assert!(board.get_end_time().is_some());
}

#[test]
fn loss_bonus_counts_only_flagged_mines() {
    let mut board = Board::with_mines(3, 1, &layout(3, 1, &[(0, 0), (2, 0)])).unwrap();
    assert_eq!(board.flag_tile(2, 0), Ok(()));
    board.on_lost();
    assert_eq!(board.get_score(), 10);
    assert!(board.get_tile(0, 0).unwrap().is_revealed);
    assert!(board.get_tile(2, 0).unwrap().is_revealed);
    assert!(!board.get_tile(1, 0).unwrap().is_revealed);
}

#[test]
fn score_counts_each_safe_cell_once() {
    let mut board = Board::with_mines(4, 4, &layout(4, 4, &[(3, 3)])).unwrap();
    assert_eq!(board.select_tile(0, 0), Ok(false));
    let revealed = count_cells(&board, |t| t.is_revealed) as u64;
    assert_eq!(board.get_score(), revealed);
    assert_eq!(revealed, 15);
}

#[test]
fn zero_mines_never_fall_back() {
    let board = Board::new(6, 6, 0, false).unwrap();
    assert!(!board.placement_fell_back());
    assert_eq!(count_cells(&board, |t| t.is_mine), 0);
}
