use chess_core::{CastlingRights, ChessError, Color, Game, GameState, Piece, PieceType};

const START: &str = "rnbqkbnr/pppppppp/8/8/8/8/PPPPPPPP/RNBQKBNR w KQkq - 0 1";

#[test]
fn start_position_as_text() {
    assert_eq!(Game::new().to_fen(), START);
}

#[test]
fn loading_the_start_gives_the_start() {
    let loaded = Game::new_board(START).unwrap();
    let made = Game::new();
    for square in 0..64u8 {
        let tile = Game::vector_to_grid(square).unwrap();
        assert_eq!(loaded.piece_at(&tile), made.piece_at(&tile));
    }
    assert_eq!(loaded.turn(), Color::White);
    assert_eq!(loaded.get_state(), GameState::InProgress);
    assert_eq!(loaded.promotion(), PieceType::Queen);
    assert_eq!(loaded.en_passant(), None);
    assert_eq!(loaded.castling(), CastlingRights::all());
    assert_eq!(loaded.to_fen(), START);
}

#[test]
fn squares_of_the_start() {
    let game = Game::new();
    let man = |kind, color| Ok(Piece::Occupied { kind, color });
    assert_eq!(game.piece_at("A8"), man(PieceType::Rook, Color::Black));
    assert_eq!(game.piece_at("D8"), man(PieceType::Queen, Color::Black));
    assert_eq!(game.piece_at("E8"), man(PieceType::King, Color::Black));
    assert_eq!(game.piece_at("E7"), man(PieceType::Pawn, Color::Black));
    assert_eq!(game.piece_at("E4"), Ok(Piece::Empty));
    assert_eq!(game.piece_at("E2"), man(PieceType::Pawn, Color::White));
    assert_eq!(game.piece_at("E1"), man(PieceType::King, Color::White));
    assert_eq!(game.piece_at("D1"), man(PieceType::Queen, Color::White));
    assert_eq!(game.piece_at("B1"), man(PieceType::Knight, Color::White));
    assert_eq!(game.piece_at("C1"), man(PieceType::Bishop, Color::White));
    assert_eq!(game.piece_at("H1"), man(PieceType::Rook, Color::White));
}

#[test]
fn placement_is_read_rank_by_rank() {
    let game = Game::new_board("4k3/3Q3R/8/8/8/8/8/8 b KQkq - 0 1").unwrap();
    let man = |kind, color| Ok(Piece::Occupied { kind, color });
    assert_eq!(game.piece_at("E8"), man(PieceType::King, Color::Black));
    assert_eq!(game.piece_at("D7"), man(PieceType::Queen, Color::White));
    assert_eq!(game.piece_at("H7"), man(PieceType::Rook, Color::White));
    assert_eq!(game.piece_at("A8"), Ok(Piece::Empty));
    assert_eq!(game.turn(), Color::Black);
}

#[test]
fn text_round_trip_after_moves() {
    let mut game = Game::new();
    for (from, to) in [("E2", "E4"), ("E7", "E5"), ("G1", "F3"), ("B8", "C6"), ("F1", "B5")] {
        assert_eq!(game.move_piece(from, to), Ok(()));
        let text = game.to_fen();
        let again = Game::new_board(&text).unwrap();
        assert_eq!(again.to_fen(), text);
        assert_eq!(again.turn(), game.turn());
        assert_eq!(again.en_passant(), game.en_passant());
        assert_eq!(again.get_state(), game.get_state());
        for square in 0..64u8 {
            let tile = Game::vector_to_grid(square).unwrap();
            assert_eq!(again.piece_at(&tile), game.piece_at(&tile));
        }
    }
    assert_eq!(
        game.to_fen(),
        "r1bqkbnr/pppp1ppp/2n5/1B2p3/4P3/5N2/PPPP1PPP/RNBQK2R b KQkq - 0 1"
    );
}

#[test]
fn runs_of_empty_squares_are_counted() {
    let game = Game::new_board("8/1p6/2p5/3p4/4p3/5p2/6p1/p6p b - - 0 1").unwrap();
    assert_eq!(game.to_fen(), "8/1p6/2p5/3p4/4p3/5p2/6p1/p6p b KQkq - 0 1");
    // Digits that follow each other are added up on reading and written as one.
    let split = Game::new_board("44/1111p111/8/8/8/8/8/8 w - - 0 1").unwrap();
    assert_eq!(split.to_fen(), "8/4p3/8/8/8/8/8/8 w KQkq - 0 1");
}

#[test]
fn en_passant_field_is_read_and_written() {
    let game = Game::new_board("8/8/8/8/4P3/8/8/8 b - E3 0 1").unwrap();
    assert_eq!(game.en_passant(), Some(44));
    assert_eq!(game.to_fen(), "8/8/8/8/4P3/8/8/8 b KQkq E3 0 1");
    assert_eq!(
        Game::new_board("8/8/8/8/4P3/8/8/8 b - e3 0 1").err(),
        Some(ChessError::MalformedPosition)
    );
    assert_eq!(
        Game::new_board("8/8/8/8/4P3/8/8/8 b - E9 0 1").err(),
        Some(ChessError::MalformedPosition)
    );
}

#[test]
fn uninterpreted_fields_are_accepted() {
    let game = Game::new_board("8/8/8/8/8/8/8/8 w whatever - 17 x").unwrap();
    assert_eq!(game.to_fen(), "8/8/8/8/8/8/8/8 w KQkq - 0 1");
    // An empty castling field is a field too.
    let empty = Game::new_board("8/8/8/8/8/8/8/8 b  - 0 1").unwrap();
    assert_eq!(empty.to_fen(), "8/8/8/8/8/8/8/8 b KQkq - 0 1");
}

#[test]
fn malformed_positions_are_refused() {
    let bad = [
        "",
        " ",
        "8/8/8/8/8/8/8/8",
        "8/8/8/8/8/8/8/8 w - -",
        "8/8/8/8/8/8/8/8 w - - 0",
        "8/8/8/8/8/8/8/8 w - - 0 1 2",
        "8/8/8/8/8/8/8/8  w - - 0 1",
        " 8/8/8/8/8/8/8/8 w - - 0 1",
        "8/8/8/8/8/8/8/8 w - - 0 1 ",
        "8/8/8/8/8/8/8 w - - 0 1",
        "8/8/8/8/8/8/8/8/8 w - - 0 1",
        "8/8/8/8/8/8/8/8/ w - - 0 1",
        "9/8/8/8/8/8/8/8 w - - 0 1",
        "7/8/8/8/8/8/8/8 w - - 0 1",
        "0/8/8/8/8/8/8/8 w - - 0 1",
        "8/8/8/8/8/8/8/7x w - - 0 1",
        "8/8/8/8/8/8/8/pppppppp1 w - - 0 1",
        "8/8/8/8/8/8/8/ppppppp w - - 0 1",
        "8/8/8/8//8/8/8 w - - 0 1",
        "8/8/8/8/8/8/8/8 x - - 0 1",
        "8/8/8/8/8/8/8/8 W - - 0 1",
        "8/8/8/8/8/8/8/8 wb - - 0 1",
        "8/8/8/8/8/8/8/8 w - -- 0 1",
        "8/8/8/8/8/8/8/8 w - Z9 0 1",
        "8/8/8/8/8/8/8/8 w - E 0 1",
        "8/8/8/8/8/8/8/8 w -  0 1",
    ];
    for text in bad {
        assert_eq!(
            Game::new_board(text).err(),
            Some(ChessError::MalformedPosition),
            "{:?}",
            text
        );
    }
}

#[test]
fn a_refused_position_leaves_the_game_untouched() {
    let mut game = Game::new();
    assert_eq!(game.move_piece("E2", "E4"), Ok(()));
    assert_eq!(game.set_promotion('r'), Ok(()));
    let before = game.to_fen();
    assert_eq!(game.apply_fen("8/8/8/8/8/8/8/9 w - - 0 1"), Err(ChessError::MalformedPosition));
    assert_eq!(game.apply_fen("nonsense"), Err(ChessError::MalformedPosition));
    assert_eq!(game.to_fen(), before);
    assert_eq!(game.promotion(), PieceType::Rook);
    assert_eq!(game.turn(), Color::Black);
}

#[test]
fn loading_keeps_the_promotion_piece() {
    let mut game = Game::new();
    assert_eq!(game.set_promotion('b'), Ok(()));
    assert_eq!(game.apply_fen("8/P7/8/8/8/8/8/8 w - - 0 1"), Ok(()));
    assert_eq!(game.promotion(), PieceType::Bishop);
    assert_eq!(game.move_piece("A7", "A8"), Ok(()));
    assert_eq!(
        game.piece_at("A8"),
        Ok(Piece::Occupied { kind: PieceType::Bishop, color: Color::White })
    );
}

#[test]
fn picture_of_the_start() {
    let blank = " ".repeat(16);
    let expected = format!(
        "   A B C D E F G H \n8  r n b q k b n r \n7  p p p p p p p p \n6  {b}\n5  {b}\n4  {b}\n3  {b}\n2  P P P P P P P P \n1  R N B Q K B N R ",
        b = blank
    );
    assert_eq!(Game::new().board_picture(), expected);
}

#[test]
fn picture_of_a_single_man() {
    let game = Game::new_board("8/8/8/8/8/8/8/7K w - - 0 1").unwrap();
    let picture = game.board_picture();
    let lines: Vec<&str> = picture.split('\n').collect();
    assert_eq!(lines.len(), 9);
    assert_eq!(lines[0], "   A B C D E F G H ");
    assert_eq!(lines[1], "8                  ");
    assert_eq!(lines[8], "1                K ");
}
