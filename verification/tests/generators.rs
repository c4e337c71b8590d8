use chess_core::{Color, Game};

fn sorted(mut squares: Vec<u8>) -> Vec<u8> {
    squares.sort();
    squares
}

fn board(fen: &str) -> Game {
    Game::new_board(fen).unwrap()
}

#[test]
fn rook_in_the_corner_runs_along_rank_and_file() {
    let game = board("8/8/8/8/8/8/8/R7 w - - 0 1");
    let moves = game.get_surrounding_tiles(56, false, true, true);
    assert_eq!(
        sorted(moves.clone()),
        vec![0, 8, 16, 24, 32, 40, 48, 57, 58, 59, 60, 61, 62, 63]
    );
    // Nothing west of file A: the square before 56 is H2.
    assert!(!moves.contains(&55));
    assert_eq!(moves, vec![48, 40, 32, 24, 16, 8, 0, 57, 58, 59, 60, 61, 62, 63]);
}

#[test]
fn rook_on_the_last_file_does_not_wrap() {
    let game = board("8/8/8/8/7R/8/8/8 w - - 0 1");
    let moves = sorted(game.get_surrounding_tiles(39, false, true, true));
    assert_eq!(moves, vec![7, 15, 23, 31, 32, 33, 34, 35, 36, 37, 38, 47, 55, 63]);
    assert!(!moves.contains(&40));
}

#[test]
fn bishop_in_the_corner_runs_along_one_diagonal() {
    let game = board("8/8/8/8/8/8/8/B7 w - - 0 1");
    let moves = sorted(game.get_surrounding_tiles(56, true, false, true));
    assert_eq!(moves, vec![7, 14, 21, 28, 35, 42, 49]);
}

#[test]
fn bishop_on_the_edge_does_not_wrap() {
    let game = board("8/8/8/8/7B/8/8/8 w - - 0 1");
    let moves = sorted(game.get_surrounding_tiles(39, true, false, true));
    assert_eq!(moves, vec![3, 12, 21, 30, 46, 53, 60]);
}

#[test]
fn queen_in_the_middle_has_all_eight_rays() {
    let game = board("8/8/8/8/3Q4/8/8/8 w - - 0 1");
    let moves = sorted(game.get_surrounding_tiles(35, true, true, true));
    assert_eq!(
        moves,
        vec![
            3, 7, 8, 11, 14, 17, 19, 21, 26, 27, 28, 32, 33, 34, 36, 37, 38, 39, 42, 43, 44, 49,
            51, 53, 56, 59, 62
        ]
    );
}

#[test]
fn single_step_geometry_stays_next_to_the_origin() {
    let game = board("8/8/8/8/4K3/8/8/8 w - - 0 1");
    let moves = game.get_surrounding_tiles(36, true, true, false);
    assert_eq!(moves, vec![28, 29, 37, 45, 44, 43, 35, 27]);
    let corner = board("8/8/8/8/8/8/8/7K w - - 0 1");
    assert_eq!(sorted(corner.get_surrounding_tiles(63, true, true, false)), vec![54, 55, 62]);
}

#[test]
fn no_flags_no_moves() {
    let game = board("8/8/8/8/3Q4/8/8/8 w - - 0 1");
    assert_eq!(game.get_surrounding_tiles(35, false, false, true), Vec::<u8>::new());
}

#[test]
fn ray_stops_before_a_friend_and_on_a_foe() {
    // Rook A1; own bishop C1; black pawn A3.
    let game = board("8/8/8/8/8/p7/8/R1B5 w - - 0 1");
    let moves = sorted(game.get_surrounding_tiles(56, false, true, true));
    assert_eq!(moves, vec![40, 48, 57]);
    // Own pawn right in front: nothing to the north.
    let blocked = board("8/8/8/8/8/8/P7/R7 w - - 0 1");
    assert_eq!(
        sorted(blocked.get_surrounding_tiles(56, false, true, true)),
        vec![57, 58, 59, 60, 61, 62, 63]
    );
    // A foe right in front: taken, and nothing behind it.
    let taken = board("8/8/8/8/8/p7/p7/R7 w - - 0 1");
    assert_eq!(
        sorted(taken.get_surrounding_tiles(56, false, true, true)),
        vec![48, 57, 58, 59, 60, 61, 62, 63]
    );
}

#[test]
fn empty_origin_or_index_off_the_board_has_no_moves() {
    let game = Game::new();
    assert_eq!(game.get_surrounding_tiles(35, true, true, true), Vec::<u8>::new());
    assert_eq!(game.get_surrounding_tiles(64, true, true, true), Vec::<u8>::new());
    assert_eq!(game.get_knight_moves(35), Vec::<u8>::new());
    assert_eq!(game.get_knight_moves(1000), Vec::<u8>::new());
    assert_eq!(game.get_pawn_moves(35), Vec::<u8>::new());
    assert_eq!(game.get_pawn_moves(64), Vec::<u8>::new());
    assert_eq!(game.candidate_moves(35), Vec::<u8>::new());
    assert_eq!(game.legal_moves(70), Vec::<u8>::new());
}

#[test]
fn start_position_sliders_are_shut_in() {
    let game = Game::new();
    assert_eq!(game.candidate_moves(56), Vec::<u8>::new());
    assert_eq!(game.candidate_moves(58), Vec::<u8>::new());
    assert_eq!(game.candidate_moves(59), Vec::<u8>::new());
    assert_eq!(game.candidate_moves(0), Vec::<u8>::new());
}

#[test]
fn knight_in_the_corner_has_two_moves() {
    let game = board("8/8/8/8/8/8/8/N7 w - - 0 1");
    assert_eq!(sorted(game.get_knight_moves(56)), vec![41, 50]);
    let other = board("7n/8/8/8/8/8/8/8 b - - 0 1");
    assert_eq!(sorted(other.get_knight_moves(7)), vec![13, 22]);
}

#[test]
fn knight_does_not_land_on_a_friend() {
    let game = board("8/8/8/8/8/1P6/2p5/N7 w - - 0 1");
    assert_eq!(game.get_knight_moves(56), vec![50]);
}

#[test]
fn knight_in_the_middle_has_eight_moves() {
    let game = board("8/8/8/8/3N4/8/8/8 w - - 0 1");
    assert_eq!(sorted(game.get_knight_moves(35)), vec![18, 20, 25, 29, 41, 45, 50, 52]);
    assert_eq!(game.get_knight_moves(35), vec![18, 20, 29, 45, 52, 50, 41, 25]);
}

#[test]
fn knights_of_the_start_position() {
    let game = Game::new();
    assert_eq!(sorted(game.get_knight_moves(57)), vec![40, 42]);
    assert_eq!(sorted(game.get_knight_moves(62)), vec![45, 47]);
    assert_eq!(sorted(game.get_knight_moves(1)), vec![16, 18]);
}

#[test]
fn pawn_pushes_from_the_start() {
    let game = Game::new();
    assert_eq!(game.get_pawn_moves(52), vec![44, 36]);
    assert_eq!(game.get_pawn_moves(12), vec![20, 28]);
    assert_eq!(game.get_pawn_moves(48), vec![40, 32]);
    assert_eq!(game.get_pawn_moves(15), vec![23, 31]);
}

#[test]
fn pawn_off_its_starting_rank_has_no_double_step() {
    let game = board("8/8/8/8/8/4P3/8/8 w - - 0 1");
    assert_eq!(game.get_pawn_moves(44), vec![36]);
    let black = board("8/8/4p3/8/8/8/8/8 b - - 0 1");
    assert_eq!(black.get_pawn_moves(20), vec![28]);
}

#[test]
fn pawn_double_step_needs_both_squares_empty() {
    let far = board("8/8/8/8/4p3/8/4P3/8 w - - 0 1");
    assert_eq!(far.get_pawn_moves(52), vec![44]);
    let near = board("8/8/8/8/8/4p3/4P3/8 w - - 0 1");
    assert_eq!(near.get_pawn_moves(52), Vec::<u8>::new());
}

#[test]
fn pawn_captures_diagonally_only_foes() {
    let game = board("8/8/4pp2/4P3/8/8/8/8 w - - 0 1");
    assert_eq!(game.get_pawn_moves(28), vec![21]);
    assert_eq!(sorted(game.get_pawn_moves(20)), Vec::<u8>::new());
    assert_eq!(sorted(game.get_pawn_moves(21)), vec![28, 29]);
    let friends = board("8/8/3P1P2/4P3/8/8/8/8 w - - 0 1");
    assert_eq!(friends.get_pawn_moves(28), vec![20]);
}

#[test]
fn pawn_on_the_edge_file_does_not_wrap() {
    // White pawn A4; black men on H5 and B5. H5 is the square before A4's row.
    let game = board("8/8/8/1p5p/P7/8/8/8 w - - 0 1");
    assert_eq!(sorted(game.get_pawn_moves(32)), vec![24, 25]);
    let right = board("8/8/8/p5p1/7P/8/8/8 w - - 0 1");
    assert_eq!(sorted(right.get_pawn_moves(39)), vec![30, 31]);
}

#[test]
fn pawn_on_the_last_rank_or_a_man_that_is_no_pawn() {
    let game = board("P7/8/8/8/8/8/8/7p w - - 0 1");
    assert_eq!(game.get_pawn_moves(0), Vec::<u8>::new());
    assert_eq!(game.get_pawn_moves(63), Vec::<u8>::new());
    let knight = board("8/8/8/8/8/8/4N3/8 w - - 0 1");
    assert_eq!(knight.get_pawn_moves(52), Vec::<u8>::new());
}

#[test]
fn king_at_home_has_no_moves_at_the_start() {
    let game = Game::new();
    assert_eq!(game.legal_moves(60), Vec::<u8>::new());
    assert_eq!(game.get_valid_moves("E1"), Ok(Some(vec![])));
    assert_eq!(game.get_valid_moves("E8"), Ok(Some(vec![])));
    assert_eq!(game.get_valid_moves("E4"), Ok(None));
}

#[test]
fn king_beside_a_rooks_file_has_one_move() {
    // King A1; the black rook on B8 attacks B1 and B2.
    let game = board("1r6/8/8/8/8/8/8/K7 w - - 0 1");
    assert_eq!(sorted(game.get_surrounding_tiles(56, true, true, false)), vec![48, 49, 57]);
    assert_eq!(game.legal_moves(56), vec![48]);
    assert_eq!(game.get_valid_moves("A1"), Ok(Some(vec![48])));
}

#[test]
fn threatened_squares_of_a_rook_and_a_king() {
    let game = board("1r6/8/8/8/8/8/8/K7 w - - 0 1");
    assert_eq!(
        game.threatened_squares(Color::Black),
        vec![0, 2, 3, 4, 5, 6, 7, 9, 17, 25, 33, 41, 49, 57]
    );
    assert_eq!(game.threatened_squares(Color::White), vec![48, 49, 57]);
    assert!(!game.is_in_check(Color::White));
    assert!(!game.is_in_check(Color::Black));
}

#[test]
fn threatened_squares_at_the_start() {
    let game = Game::new();
    assert_eq!(
        game.threatened_squares(Color::White),
        vec![32, 33, 34, 35, 36, 37, 38, 39, 40, 41, 42, 43, 44, 45, 46, 47]
    );
    assert_eq!(
        game.threatened_squares(Color::Black),
        vec![16, 17, 18, 19, 20, 21, 22, 23, 24, 25, 26, 27, 28, 29, 30, 31]
    );
}

#[test]
fn kings_do_not_step_next_to_each_other() {
    // White king E1, black king E3: the squares between them are attacked.
    let game = board("8/8/8/8/8/4k3/8/4K3 w - - 0 1");
    assert_eq!(sorted(game.legal_moves(60)), vec![59, 61]);
    assert_eq!(sorted(game.legal_moves(44)), vec![35, 36, 37, 43, 45]);
}

#[test]
fn legal_moves_by_kind() {
    let game = Game::new();
    assert_eq!(game.get_valid_moves("B1").map(|m| m.map(sorted)), Ok(Some(vec![40, 42])));
    assert_eq!(game.get_valid_moves("A2"), Ok(Some(vec![40, 32])));
    assert_eq!(game.get_valid_moves("A1"), Ok(Some(vec![])));
    assert_eq!(game.get_valid_moves("G8").map(|m| m.map(sorted)), Ok(Some(vec![21, 23])));
}
