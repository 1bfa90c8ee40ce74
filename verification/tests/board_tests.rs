use reversi_core::params_to_ban;
use reversi_core::Ban;
use reversi_core::Stone;

/// The four-stone opening used by several scenarios: White on (2,2)
/// and (3,3), Black on (2,3) and (3,2).
fn opening_grid() -> [[i8; 6]; 6] {
    let mut grid: [[i8; 6]; 6] = [[0; 6]; 6];
    grid[2][2] = -1;
    grid[2][3] = 1;
    grid[3][2] = 1;
    grid[3][3] = -1;
    grid
}

fn opening_ban() -> Ban {
    params_to_ban(1, opening_grid())
}

fn count_stones(ban: &Ban, stone: Stone) -> usize {
    let mut count: usize = 0;
    for s in ban.get_stones() {
        if s == stone {
            count = count + 1;
        }
    }
    count
}

#[test]
fn value_of_decodes_player_codes() {
    assert_eq!(Stone::value_of(1), Some(Stone::Black));
    assert_eq!(Stone::value_of(-1), Some(Stone::White));
    assert_eq!(Stone::value_of(0), None);
    assert_eq!(Stone::value_of(5), None);
    assert_eq!(Stone::value_of(-3), None);
}

#[test]
fn reverse_swaps_the_players() {
    assert_eq!(Stone::Black.reverse(), Stone::White);
    assert_eq!(Stone::White.reverse(), Stone::Black);
}

#[test]
fn stone_glyphs() {
    assert_eq!(Stone::Black.to_string(), "\u{25cf}");
    assert_eq!(Stone::White.to_string(), "\u{25cb}");
}

#[test]
fn get_stone_reads_cells_and_tolerates_out_of_range() {
    let ban = opening_ban();
    assert_eq!(ban.get_stone((2, 2)), Some(Stone::White));
    assert_eq!(ban.get_stone((2, 3)), Some(Stone::Black));
    assert_eq!(ban.get_stone((0, 0)), None);
    assert_eq!(ban.get_stone((6, 0)), None);
    assert_eq!(ban.get_stone((0, 6)), None);
    assert_eq!(ban.get_stone((100, 100)), None);
}

#[test]
fn out_of_domain_cell_codes_decode_to_empty() {
    let mut grid: [[i8; 6]; 6] = [[0; 6]; 6];
    grid[0][0] = 3;
    grid[0][1] = -7;
    grid[0][2] = 1;
    let ban = params_to_ban(1, grid);
    assert_eq!(ban.get_stone((0, 0)), None);
    assert_eq!(ban.get_stone((0, 1)), None);
    assert_eq!(ban.get_stone((0, 2)), Some(Stone::Black));
}

#[test]
fn opening_legal_moves_row_major() {
    let ban = opening_ban();
    assert_eq!(ban.get_positions(), vec![(1, 2), (2, 1), (3, 4), (4, 3)]);
}

#[test]
fn legal_moves_are_empty_cells() {
    let ban = opening_ban();
    for p in ban.get_positions() {
        assert_eq!(ban.get_stone(p), None);
    }
}

#[test]
fn count_reverse_stones_on_opening() {
    let ban = opening_ban();
    assert_eq!(ban.count_reverse_stones((2, 1)), 1);
    assert_eq!(ban.count_reverse_stones((1, 2)), 1);
    assert_eq!(ban.count_reverse_stones((0, 0)), 0);
    // an occupied cell flips nothing
    assert_eq!(ban.count_reverse_stones((2, 2)), 0);
}

#[test]
fn count_reverse_line_stones_accumulates() {
    let ban = opening_ban();
    assert_eq!(ban.count_reverse_line_stones((2, 1), (0, 1), 0), 1);
    assert_eq!(ban.count_reverse_line_stones((2, 1), (0, 1), 5), 6);
    // runs off the grid before an own stone
    assert_eq!(ban.count_reverse_line_stones((2, 1), (0, -1), 0), 0);
}

#[test]
fn reverse_positions_in_a_direction() {
    let ban = opening_ban();
    assert_eq!(ban.get_reverse_positions((2, 1), (0, 1)), Some(vec![(2, 2)]));
    // the walk meets an empty cell first
    assert_eq!(ban.get_reverse_positions((2, 1), (0, -1)), None);
    // an immediately adjacent own stone: a legal but empty flip list
    assert_eq!(ban.get_reverse_positions((2, 4), (0, -1)), Some(vec![]));
}

#[test]
fn put_stone_flips_the_enclosed_run() {
    let ban = opening_ban();
    let next = ban.put_stone((2, 1));
    assert_eq!(next.get_stone((2, 1)), Some(Stone::Black));
    assert_eq!(next.get_stone((2, 2)), Some(Stone::Black));
    assert_eq!(next.get_stone((2, 3)), Some(Stone::Black));
    assert_eq!(next.get_stone((3, 2)), Some(Stone::Black));
    assert_eq!(next.get_stone((3, 3)), Some(Stone::White));
    assert_eq!(next.get_teban(), Stone::White);
}

#[test]
fn put_stone_on_occupied_cell_only_passes_the_turn() {
    let ban = opening_ban();
    let next = ban.put_stone((2, 2));
    assert_eq!(next.get_teban(), Stone::White);
    assert_eq!(next.get_stone((2, 2)), Some(Stone::White));
    assert_eq!(next.get_stone((2, 3)), Some(Stone::Black));
    assert_eq!(count_stones(&next, Stone::Black), 2);
    assert_eq!(count_stones(&next, Stone::White), 2);
}

#[test]
fn move_changes_stone_counts_by_one_plus_flips() {
    let ban = opening_ban();
    assert_eq!(count_stones(&ban, Stone::Black), 2);
    assert_eq!(count_stones(&ban, Stone::White), 2);
    let flips = ban.count_reverse_stones((2, 1));
    assert_eq!(flips, 1);
    let next = ban.put_stone((2, 1));
    assert_eq!(count_stones(&next, Stone::Black), 2 + 1 + flips);
    assert_eq!(count_stones(&next, Stone::White), 2 - flips);
    assert_eq!(
        count_stones(&next, Stone::Black) + count_stones(&next, Stone::White),
        2 + 2 + 1
    );
}

#[test]
fn change_teban_keeps_the_grid() {
    let ban = opening_ban();
    let passed = ban.change_teban();
    assert_eq!(passed.get_teban(), Stone::White);
    assert_eq!(passed.get_stone((2, 2)), Some(Stone::White));
    assert_eq!(passed.get_stone((3, 2)), Some(Stone::Black));
}

#[test]
fn nonterminal_score_counts_moves_and_corners() {
    let ban = opening_ban();
    assert_eq!(ban.get_score(), 4);
    let mut grid = opening_grid();
    grid[0][0] = 1;
    let with_corner = params_to_ban(1, grid);
    assert_eq!(with_corner.get_score(), 4 + 100);
}

#[test]
fn terminal_score_is_exactly_1000_or_0() {
    // a fully occupied board: 20 Black stones, then 16 White stones
    let mut grid: [[i8; 6]; 6] = [[0; 6]; 6];
    let mut filled: usize = 0;
    for y in 0..6 {
        for x in 0..6 {
            grid[y][x] = if filled < 20 { 1 } else { -1 };
            filled = filled + 1;
        }
    }
    let black_to_move = params_to_ban(1, grid);
    assert!(black_to_move.get_positions().is_empty());
    assert!(black_to_move.change_teban().get_positions().is_empty());
    assert_eq!(black_to_move.get_score(), 1000);
    let white_to_move = params_to_ban(-1, grid);
    assert_eq!(white_to_move.get_score(), 0);
}

#[test]
fn terminal_score_on_a_tie_is_0() {
    let mut grid: [[i8; 6]; 6] = [[0; 6]; 6];
    let mut filled: usize = 0;
    for y in 0..6 {
        for x in 0..6 {
            grid[y][x] = if filled < 18 { 1 } else { -1 };
            filled = filled + 1;
        }
    }
    assert_eq!(params_to_ban(1, grid).get_score(), 0);
    assert_eq!(params_to_ban(-1, grid).get_score(), 0);
}

#[test]
fn empty_board_is_terminal_with_score_0() {
    let ban = params_to_ban(1, [[0; 6]; 6]);
    assert!(ban.get_positions().is_empty());
    assert_eq!(ban.get_score(), 0);
}
