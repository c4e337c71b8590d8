use chess_core::piece::{decode, encode};
use chess_core::{ChessError, Color, Game, GameState, Piece, PieceType};

const START: &str = "rnbqkbnr/pppppppp/8/8/8/8/PPPPPPPP/RNBQKBNR w KQkq - 0 1";

fn man(kind: PieceType, color: Color) -> Piece {
    Piece::Occupied { kind, color }
}

#[test]
fn init_test_standard() {
    let _game = Game::new();
    assert_eq!(_game.to_fen(), START);
}

#[test]
fn init_test_custom() {
    let _game = Game::new_board("4k3/3Q3R/8/8/8/8/8/8 b KQkq - 0 1");
    assert!(_game.is_ok());
    assert_eq!(_game.unwrap().to_fen(), "4k3/3Q3R/8/8/8/8/8/8 b KQkq - 0 1");
}

#[test]
fn test_move() {
    let mut a = Game::new_board("4k3/3Q3R/8/8/8/8/8/8 b KQkq - 0 1").unwrap();
    // A5 is an empty square: no move starts there.
    assert_eq!(a.move_piece("A5", "A4"), Err(ChessError::IllegalMove));
    assert_eq!(a.move_piece("A5", "A6"), Err(ChessError::IllegalMove));
    assert_eq!(a.to_fen(), "4k3/3Q3R/8/8/8/8/8/8 b KQkq - 0 1");
}

#[test]
fn test_promotion() {
    let mut game = Game::new_board("8/P7/8/8/8/8/8/8 w - - 0 1").unwrap();
    // B1 is empty in this position; the pawn stands on A7.
    assert_eq!(game.move_piece("B1", "A1"), Err(ChessError::IllegalMove));
    assert_eq!(game.piece_at("A7"), Ok(man(PieceType::Pawn, Color::White)));
}

#[test]
fn test_change_promotion() {
    let mut game = Game::new_board("8/P7/8/8/8/8/8/8 w - - 0 1").unwrap();
    assert_eq!(game.set_promotion('N'), Ok(()));
    assert_eq!(game.promotion(), PieceType::Knight);
    assert_eq!(game.move_piece("B1", "A1"), Err(ChessError::IllegalMove));
}

#[test]
fn test_pawn_move() {
    let mut game = Game::new_board("8/8/4pp2/4P3/8/8/8/8 w - - 0 1").unwrap();
    // The pawn stands on E5; D5 is empty.
    assert_eq!(game.move_piece("D5", "C5"), Err(ChessError::IllegalMove));
    assert_eq!(game.move_piece("D5", "C6"), Err(ChessError::IllegalMove));
    assert_eq!(game.to_fen(), "8/8/4pp2/4P3/8/8/8/8 w KQkq - 0 1");
}

#[test]
fn test_check_state() {
    let mut game = Game::new_board("8/p7/5k2/4P3/8/8/P7/8 b - - 0 1").unwrap();
    println!("\n{}\n", game.to_fen());
    // None of these squares holds a black man that may move.
    assert_eq!(game.move_piece("B1", "D1"), Err(ChessError::IllegalMove));
    println!("\n{}\n", game.to_fen());
    assert_eq!(game.move_piece("C6", "D5"), Err(ChessError::IllegalMove));
    println!("\n{}\n", game.to_fen());
    assert_eq!(game.move_piece("G1", "F1"), Err(ChessError::IllegalMove));
    println!("\n{}\n", game.to_fen());
    assert_eq!(game.move_piece("B1", "B2"), Err(ChessError::IllegalMove));
    println!("\n{}\n", game.to_fen());
    assert_eq!(game.move_piece("B1", "C1"), Err(ChessError::IllegalMove));
    assert_eq!(game.get_state(), GameState::Check);
    assert_eq!(game.to_fen(), "8/p7/5k2/4P3/8/8/P7/8 b KQkq - 0 1");
}

#[test]
fn loaded_position_with_attacked_king_is_check() {
    // The white pawn on E5 has the king's square F6 among its captures.
    let game = Game::new_board("8/p7/5k2/4P3/8/8/P7/8 b - - 0 1").unwrap();
    assert_eq!(game.get_state(), GameState::Check);
    assert_eq!(game.turn(), Color::Black);
}

#[test]
fn only_the_king_moves_while_in_check() {
    let mut game = Game::new_board("8/p7/5k2/4P3/8/8/P7/8 b - - 0 1").unwrap();
    assert_eq!(game.get_valid_moves("A7"), Ok(Some(vec![])));
    assert_eq!(game.move_piece("A7", "A5"), Err(ChessError::IllegalMove));
    // The king takes the pawn that gives check.
    assert_eq!(game.move_piece("F6", "E5"), Ok(()));
    assert_eq!(game.get_state(), GameState::InProgress);
    assert_eq!(game.turn(), Color::White);
    assert_eq!(game.to_fen(), "8/p7/8/4k3/8/8/P7/8 w KQkq - 0 1");
    assert_eq!(game.move_piece("A2", "A4"), Ok(()));
    assert_eq!(game.to_fen(), "8/p7/8/4k3/P7/8/8/8 b KQkq A3 0 1");
    assert_eq!(game.move_piece("A7", "A5"), Ok(()));
    assert_eq!(game.to_fen(), "8/8/8/p3k3/P7/8/8/8 w KQkq A6 0 1");
}

#[test]
fn opening_move_then_second_white_move_is_rejected() {
    let mut game = Game::new();
    assert_eq!(game.turn(), Color::White);
    assert_eq!(game.get_state(), GameState::InProgress);
    assert_eq!(game.move_piece("E2", "E4"), Ok(()));
    assert_eq!(game.turn(), Color::Black);
    assert_eq!(game.piece_at("E4"), Ok(man(PieceType::Pawn, Color::White)));
    assert_eq!(game.piece_at("E2"), Ok(Piece::Empty));
    assert_eq!(game.en_passant(), Some(44));
    let before = game.to_fen();
    assert_eq!(before, "rnbqkbnr/pppppppp/8/8/4P3/8/PPPP1PPP/RNBQKBNR b KQkq E3 0 1");
    assert_eq!(game.move_piece("E4", "E5"), Err(ChessError::IllegalMove));
    assert_eq!(game.to_fen(), before);
    assert_eq!(game.turn(), Color::Black);
}

#[test]
fn pawn_reaching_the_last_rank_becomes_a_queen() {
    let mut game = Game::new_board("8/P7/8/8/8/8/8/8 w - - 0 1").unwrap();
    assert_eq!(game.promotion(), PieceType::Queen);
    assert_eq!(game.move_piece("A7", "A8"), Ok(()));
    let arrived = game.piece_at("A8").unwrap();
    assert_eq!(encode(arrived), 0b0001_0110);
    assert_eq!(decode(encode(arrived)), man(PieceType::Queen, Color::White));
    assert_eq!(game.piece_at("A7"), Ok(Piece::Empty));
    assert_eq!(game.turn(), Color::Black);
    assert_eq!(game.to_fen(), "Q7/8/8/8/8/8/8/8 b KQkq - 0 1");
}

#[test]
fn chosen_promotion_piece_is_used() {
    let mut game = Game::new_board("8/P7/8/8/8/8/8/8 w - - 0 1").unwrap();
    assert_eq!(game.set_promotion('N'), Ok(()));
    assert_eq!(game.move_piece("A7", "A8"), Ok(()));
    assert_eq!(game.piece_at("A8"), Ok(man(PieceType::Knight, Color::White)));
}

#[test]
fn black_pawn_is_promoted_on_rank_one() {
    let mut game = Game::new_board("8/8/8/8/8/8/p7/8 b - - 0 1").unwrap();
    assert_eq!(game.set_promotion('r'), Ok(()));
    assert_eq!(game.move_piece("A2", "A1"), Ok(()));
    assert_eq!(game.piece_at("A1"), Ok(man(PieceType::Rook, Color::Black)));
    assert_eq!(encode(game.piece_at("A1").unwrap()), 0b0000_1011);
}

#[test]
fn promotion_letters() {
    let mut game = Game::new();
    for (letter, kind) in [
        ('q', PieceType::Queen),
        ('Q', PieceType::Queen),
        ('r', PieceType::Rook),
        ('R', PieceType::Rook),
        ('b', PieceType::Bishop),
        ('B', PieceType::Bishop),
        ('n', PieceType::Knight),
        ('N', PieceType::Knight),
        ('p', PieceType::Pawn),
        ('P', PieceType::Pawn),
    ] {
        assert_eq!(game.set_promotion(letter), Ok(()));
        assert_eq!(game.promotion(), kind);
    }
}

#[test]
fn unknown_promotion_letter_is_refused() {
    let mut game = Game::new();
    assert_eq!(game.set_promotion('B'), Ok(()));
    assert_eq!(game.set_promotion('k'), Err(ChessError::InvalidPromotion));
    assert_eq!(game.set_promotion('K'), Err(ChessError::InvalidPromotion));
    assert_eq!(game.set_promotion('x'), Err(ChessError::InvalidPromotion));
    assert_eq!(game.set_promotion('1'), Err(ChessError::InvalidPromotion));
    assert_eq!(game.promotion(), PieceType::Bishop);
    assert_eq!(game.to_fen(), START);
}

#[test]
fn moving_the_other_sides_man_is_illegal() {
    let mut game = Game::new();
    assert_eq!(game.move_piece("E7", "E5"), Err(ChessError::IllegalMove));
    assert_eq!(game.move_piece("E3", "E4"), Err(ChessError::IllegalMove));
    assert_eq!(game.move_piece("E2", "E5"), Err(ChessError::IllegalMove));
    assert_eq!(game.move_piece("E2", "E2"), Err(ChessError::IllegalMove));
    assert_eq!(game.to_fen(), START);
}

#[test]
fn bad_coordinates_are_reported() {
    let mut game = Game::new();
    assert_eq!(game.move_piece("E9", "E4"), Err(ChessError::InvalidCoordinate));
    assert_eq!(game.move_piece("E2", "I4"), Err(ChessError::InvalidCoordinate));
    assert_eq!(game.move_piece("e2", "e4"), Err(ChessError::InvalidCoordinate));
    assert_eq!(game.move_piece("", "E4"), Err(ChessError::InvalidCoordinate));
    assert_eq!(game.move_piece("E2", "E44"), Err(ChessError::InvalidCoordinate));
    assert_eq!(game.piece_at("A0"), Err(ChessError::InvalidCoordinate));
    assert_eq!(game.get_valid_moves("H9"), Err(ChessError::InvalidCoordinate));
    assert_eq!(game.to_fen(), START);
}

#[test]
fn en_passant_target_lasts_one_move() {
    let mut game = Game::new();
    assert_eq!(game.en_passant(), None);
    assert_eq!(game.move_piece("D2", "D4"), Ok(()));
    assert_eq!(game.en_passant(), Some(43));
    assert_eq!(game.move_piece("D7", "D5"), Ok(()));
    assert_eq!(game.en_passant(), Some(19));
    assert_eq!(game.move_piece("G1", "F3"), Ok(()));
    assert_eq!(game.en_passant(), None);
    assert_eq!(game.move_piece("E7", "E6"), Ok(()));
    assert_eq!(game.en_passant(), None);
    assert_eq!(
        game.to_fen(),
        "rnbqkbnr/ppp2ppp/4p3/3p4/3P4/5N2/PPP1PPPP/RNBQKB1R w KQkq - 0 1"
    );
}

#[test]
fn capture_replaces_the_captured_man() {
    let mut game = Game::new_board("8/8/4pp2/4P3/8/8/8/8 w - - 0 1").unwrap();
    assert_eq!(game.move_piece("E5", "E6"), Err(ChessError::IllegalMove));
    assert_eq!(game.move_piece("E5", "D6"), Err(ChessError::IllegalMove));
    assert_eq!(game.move_piece("E5", "F6"), Ok(()));
    assert_eq!(game.piece_at("F6"), Ok(man(PieceType::Pawn, Color::White)));
    assert_eq!(game.piece_at("E5"), Ok(Piece::Empty));
    assert_eq!(game.to_fen(), "8/8/4pP2/8/8/8/8/8 b KQkq - 0 1");
}

#[test]
fn a_move_that_attacks_the_king_gives_check() {
    let mut game = Game::new_board("4k3/7p/8/8/8/8/8/R3K3 w - - 0 1").unwrap();
    assert_eq!(game.get_state(), GameState::InProgress);
    assert_eq!(game.move_piece("A1", "A8"), Ok(()));
    assert_eq!(game.get_state(), GameState::Check);
    assert_eq!(game.turn(), Color::Black);
    assert_eq!(game.move_piece("H7", "H6"), Err(ChessError::IllegalMove));
    assert_eq!(game.move_piece("E8", "D8"), Err(ChessError::IllegalMove));
    assert_eq!(game.move_piece("E8", "E7"), Ok(()));
    assert_eq!(game.get_state(), GameState::InProgress);
    assert_eq!(game.to_fen(), "R7/4k2p/8/8/8/8/8/4K3 w KQkq - 0 1");
}

#[test]
fn king_in_check_steps_aside() {
    let mut game = Game::new_board("4k3/3Q3R/8/8/8/8/8/8 b KQkq - 0 1").unwrap();
    assert_eq!(game.get_state(), GameState::Check);
    assert_eq!(game.move_piece("E8", "D8"), Err(ChessError::IllegalMove));
    assert_eq!(game.move_piece("E8", "E7"), Err(ChessError::IllegalMove));
    assert_eq!(game.move_piece("E8", "F8"), Ok(()));
    assert_eq!(game.to_fen(), "5k2/3Q3R/8/8/8/8/8/8 w KQkq - 0 1");
}

#[test]
fn check_checkstate_keeps_a_current_status() {
    let mut game = Game::new_board("4k3/3Q3R/8/8/8/8/8/8 b KQkq - 0 1").unwrap();
    game.check_checkstate();
    assert_eq!(game.get_state(), GameState::Check);
    let mut start = Game::new();
    start.check_checkstate();
    assert_eq!(start.get_state(), GameState::InProgress);
    assert_eq!(start.to_fen(), START);
}
