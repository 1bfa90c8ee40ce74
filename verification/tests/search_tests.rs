use reversi_core::get_position_score;
use reversi_core::handle_request;
use reversi_core::params_to_ban;
use reversi_core::RequestError;

fn opening_grid() -> [[i8; 6]; 6] {
    let mut grid: [[i8; 6]; 6] = [[0; 6]; 6];
    grid[2][2] = -1;
    grid[2][3] = 1;
    grid[3][2] = 1;
    grid[3][3] = -1;
    grid
}

#[test]
fn depth_zero_scores_every_candidate_with_the_parent_score() {
    let ban = params_to_ban(1, opening_grid());
    // the parent board scores 4, and the first legal move is chosen
    assert_eq!(get_position_score(ban, 0), (Some((1, 2)), 4));
}

#[test]
fn depth_one_minimises_over_the_answers() {
    let ban = params_to_ban(1, opening_grid());
    // every answer position offers White 3 moves and no corner, so all
    // candidates tie at 3 and the first one stays
    assert_eq!(get_position_score(ban, 1), (Some((1, 2)), 3));
}

#[test]
fn no_legal_move_returns_no_candidate_at_any_depth() {
    let empty = [[0i8; 6]; 6];
    let ban = params_to_ban(1, empty);
    assert_eq!(get_position_score(ban, 0), (None, 0));
    let ban = params_to_ban(1, empty);
    assert_eq!(get_position_score(ban, 3), (None, 0));
    let ban = params_to_ban(-1, empty);
    assert_eq!(get_position_score(ban, 5), (None, 0));
}

#[test]
fn request_with_mover_0_is_rejected() {
    assert_eq!(
        handle_request(0, opening_grid()),
        Err(RequestError::InvalidTeban)
    );
    assert_eq!(handle_request(0, [[0; 6]; 6]), Err(RequestError::InvalidTeban));
}

#[test]
fn request_without_a_move_answers_the_sentinel() {
    assert_eq!(handle_request(1, [[0; 6]; 6]), Ok((-1, -1)));
    assert_eq!(handle_request(-1, [[0; 6]; 6]), Ok((-1, -1)));
}

#[test]
fn request_on_the_opening_answers_a_legal_move() {
    let answer = handle_request(1, opening_grid());
    let ban = params_to_ban(1, opening_grid());
    let legal = ban.get_positions();
    match answer {
        Ok((y, x)) => {
            assert!(legal.contains(&(y as usize, x as usize)));
        }
        Err(_) => panic!("the opening request must not fail"),
    }
}
