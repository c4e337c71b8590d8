use chess_core::coord::{to_coordinate, to_index};
use chess_core::piece::{
    color_of, decode, encode, from_symbol, is_valid_encoding, symbol, type_of,
};
use chess_core::{ChessError, Color, Game, Piece, PieceType};

const KINDS: [PieceType; 6] = [
    PieceType::King,
    PieceType::Pawn,
    PieceType::Rook,
    PieceType::Knight,
    PieceType::Bishop,
    PieceType::Queen,
];

#[test]
fn bytes_of_the_pieces() {
    let white = |kind| Piece::Occupied { kind, color: Color::White };
    let black = |kind| Piece::Occupied { kind, color: Color::Black };
    assert_eq!(encode(Piece::Empty), 0b0000_0000);
    assert_eq!(encode(white(PieceType::King)), 0b0001_0001);
    assert_eq!(encode(black(PieceType::King)), 0b0000_1001);
    assert_eq!(encode(white(PieceType::Queen)), 0b0001_0110);
    assert_eq!(encode(black(PieceType::Queen)), 0b0000_1110);
    assert_eq!(encode(white(PieceType::Bishop)), 0b0001_0101);
    assert_eq!(encode(black(PieceType::Bishop)), 0b0000_1101);
    assert_eq!(encode(white(PieceType::Knight)), 0b0001_0100);
    assert_eq!(encode(black(PieceType::Knight)), 0b0000_1100);
    assert_eq!(encode(white(PieceType::Rook)), 0b0001_0011);
    assert_eq!(encode(black(PieceType::Rook)), 0b0000_1011);
    assert_eq!(encode(white(PieceType::Pawn)), 0b0001_0010);
    assert_eq!(encode(black(PieceType::Pawn)), 0b0000_1010);
}

#[test]
fn decode_inverts_encode() {
    assert_eq!(decode(encode(Piece::Empty)), Piece::Empty);
    for kind in KINDS {
        for color in [Color::White, Color::Black] {
            let piece = Piece::Occupied { kind, color };
            assert!(is_valid_encoding(encode(piece)));
            assert_eq!(decode(encode(piece)), piece);
        }
    }
}

#[test]
fn encode_inverts_decode_on_valid_bytes() {
    let mut valid = 0;
    for byte in 0..=255u8 {
        if is_valid_encoding(byte) {
            valid += 1;
            assert_eq!(encode(decode(byte)), byte);
        } else {
            assert_eq!(decode(byte), Piece::Empty);
        }
    }
    assert_eq!(valid, 13);
}

#[test]
fn decode_of_the_empty_byte_is_empty() {
    assert_eq!(decode(0), Piece::Empty);
    assert_eq!(decode(7), Piece::Empty);
    assert_eq!(decode(8), Piece::Empty);
    assert_eq!(decode(15), Piece::Empty);
    assert_eq!(decode(16), Piece::Empty);
    assert_eq!(decode(23), Piece::Empty);
    assert_eq!(decode(24 + 1), Piece::Empty);
}

#[test]
fn empty_square_has_no_color() {
    assert_eq!(color_of(Piece::Empty), None);
    assert_ne!(color_of(Piece::Empty), Some(Color::White));
    assert_ne!(color_of(Piece::Empty), Some(Color::Black));
    assert_eq!(type_of(Piece::Empty), None);
    let rook = Piece::Occupied { kind: PieceType::Rook, color: Color::Black };
    assert_eq!(color_of(rook), Some(Color::Black));
    assert_eq!(type_of(rook), Some(PieceType::Rook));
    assert_eq!(Color::White.opposite(), Color::Black);
    assert_eq!(Color::Black.opposite(), Color::White);
}

#[test]
fn letters_of_the_pieces() {
    let letters = [
        ('K', PieceType::King, Color::White),
        ('Q', PieceType::Queen, Color::White),
        ('R', PieceType::Rook, Color::White),
        ('B', PieceType::Bishop, Color::White),
        ('N', PieceType::Knight, Color::White),
        ('P', PieceType::Pawn, Color::White),
        ('k', PieceType::King, Color::Black),
        ('q', PieceType::Queen, Color::Black),
        ('r', PieceType::Rook, Color::Black),
        ('b', PieceType::Bishop, Color::Black),
        ('n', PieceType::Knight, Color::Black),
        ('p', PieceType::Pawn, Color::Black),
    ];
    for (letter, kind, color) in letters {
        let piece = Piece::Occupied { kind, color };
        assert_eq!(symbol(piece), letter);
        assert_eq!(from_symbol(letter), Some(piece));
    }
    assert_eq!(symbol(Piece::Empty), ' ');
    assert_eq!(from_symbol(' '), None);
    assert_eq!(from_symbol('x'), None);
    assert_eq!(from_symbol('1'), None);
}

#[test]
fn corners_of_the_board() {
    assert_eq!(to_index('A', 8), Ok(0));
    assert_eq!(to_index('H', 8), Ok(7));
    assert_eq!(to_index('A', 1), Ok(56));
    assert_eq!(to_index('H', 1), Ok(63));
    assert_eq!(to_index('E', 2), Ok(52));
    assert_eq!(to_index('E', 4), Ok(36));
    assert_eq!(to_coordinate(0), Ok(('A', 8)));
    assert_eq!(to_coordinate(63), Ok(('H', 1)));
    assert_eq!(to_coordinate(52), Ok(('E', 2)));
}

#[test]
fn coordinates_outside_the_board_are_refused() {
    assert_eq!(to_index('I', 1), Err(ChessError::InvalidCoordinate));
    assert_eq!(to_index('@', 1), Err(ChessError::InvalidCoordinate));
    assert_eq!(to_index('a', 1), Err(ChessError::InvalidCoordinate));
    assert_eq!(to_index('A', 0), Err(ChessError::InvalidCoordinate));
    assert_eq!(to_index('A', 9), Err(ChessError::InvalidCoordinate));
    assert_eq!(to_coordinate(64), Err(ChessError::InvalidCoordinate));
    assert_eq!(to_coordinate(255), Err(ChessError::InvalidCoordinate));
}

#[test]
fn index_and_coordinate_are_inverses() {
    for square in 0..64u8 {
        let (file, rank) = to_coordinate(square).unwrap();
        assert_eq!(to_index(file, rank), Ok(square));
    }
    for file in 'A'..='H' {
        for rank in 1..=8u8 {
            let square = to_index(file, rank).unwrap();
            assert_eq!(to_coordinate(square), Ok((file, rank)));
        }
    }
}

#[test]
fn coordinate_strings() {
    assert_eq!(Game::parse_to_index("E2"), Some(52));
    assert_eq!(Game::parse_to_index("A8"), Some(0));
    assert_eq!(Game::parse_to_index("H1"), Some(63));
    assert_eq!(Game::parse_to_index("E9"), None);
    assert_eq!(Game::parse_to_index("E0"), None);
    assert_eq!(Game::parse_to_index("I1"), None);
    assert_eq!(Game::parse_to_index("e2"), None);
    assert_eq!(Game::parse_to_index("E"), None);
    assert_eq!(Game::parse_to_index("E22"), None);
    assert_eq!(Game::parse_to_index(""), None);
    assert_eq!(Game::parse_to_index("2E"), None);
    assert_eq!(Game::grid_to_vector("E4"), Ok(36));
    assert_eq!(Game::grid_to_vector("Z9"), Err(ChessError::InvalidCoordinate));
    assert_eq!(Game::vector_to_grid(52), Ok("E2".to_string()));
    assert_eq!(Game::vector_to_grid(0), Ok("A8".to_string()));
    assert_eq!(Game::vector_to_grid(63), Ok("H1".to_string()));
    assert_eq!(Game::vector_to_grid(64), Err(ChessError::InvalidCoordinate));
}

#[test]
fn coordinate_strings_round_trip() {
    for square in 0..64u8 {
        let text = Game::vector_to_grid(square).unwrap();
        assert_eq!(Game::grid_to_vector(&text), Ok(square));
        assert_eq!(Game::parse_to_index(&text), Some(square as usize));
    }
}
