//! Occupants of a square and their compact one-byte encoding.
//!
//! A byte carries the kind in its three low bits and the color in the two
//! bits above them: `0` is the empty square, a white man is `16 + kind`, a
//! black man `8 + kind`, with kinds numbered King 1, Pawn 2, Rook 3,
//! Knight 4, Bishop 5, Queen 6. The thirteen bytes of that shape are the
//! valid encodings.

use vstd::prelude::*;

verus! {

/// The two sides.
#[derive(Clone, Copy, Debug, PartialEq, Eq, Structural)]
pub enum Color {
    White,
    Black,
}

/// The six kinds of chessmen.
#[derive(Clone, Copy, Debug, PartialEq, Eq, Structural)]
pub enum PieceType {
    King,
    Pawn,
    Rook,
    Knight,
    Bishop,
    Queen,
}

/// What stands on a square: nothing, or a man of some kind and color.
#[derive(Clone, Copy, Debug, PartialEq, Eq, Structural)]
pub enum Piece {
    Empty,
    Occupied { kind: PieceType, color: Color },
}

impl Color {
    /// What `opposite` returns.
    pub open spec fn spec_opposite(self) -> Color {
        match self {
            Color::White => Color::Black,
            Color::Black => Color::White,
        }
    }

    /// The other side.
    #[verifier::when_used_as_spec(spec_opposite)]
    pub fn opposite(self) -> (other: Color)
        ensures
            other == self.spec_opposite(),
    {
        match self {
            Color::White => Color::Black,
            Color::Black => Color::White,
        }
    }

    /// What `bits` returns.
    pub open spec fn spec_bits(self) -> u8 {
        match self {
            Color::White => 16,
            Color::Black => 8,
        }
    }

    /// The color bits of an encoded piece.
    #[verifier::when_used_as_spec(spec_bits)]
    pub fn bits(self) -> (b: u8)
        ensures
            b == self.spec_bits(),
    {
        match self {
            Color::White => 16,
            Color::Black => 8,
        }
    }
}

impl PieceType {
    /// What `code` returns.
    pub open spec fn spec_code(self) -> u8 {
        match self {
            PieceType::King => 1,
            PieceType::Pawn => 2,
            PieceType::Rook => 3,
            PieceType::Knight => 4,
            PieceType::Bishop => 5,
            PieceType::Queen => 6,
        }
    }

    /// The kind bits of an encoded piece.
    #[verifier::when_used_as_spec(spec_code)]
    pub fn code(self) -> (c: u8)
        ensures
            c == self.spec_code(),
    {
        match self {
            PieceType::King => 1,
            PieceType::Pawn => 2,
            PieceType::Rook => 3,
            PieceType::Knight => 4,
            PieceType::Bishop => 5,
            PieceType::Queen => 6,
        }
    }

    /// What `from_code` returns.
    pub open spec fn spec_from_code(code: u8) -> Option<PieceType> {
        if code == 1 {
            Some(PieceType::King)
        } else if code == 2 {
            Some(PieceType::Pawn)
        } else if code == 3 {
            Some(PieceType::Rook)
        } else if code == 4 {
            Some(PieceType::Knight)
        } else if code == 5 {
            Some(PieceType::Bishop)
        } else if code == 6 {
            Some(PieceType::Queen)
        } else {
            None
        }
    }

    /// The kind with the given kind bits, if there is one.
    #[verifier::when_used_as_spec(spec_from_code)]
    pub fn from_code(code: u8) -> (kind: Option<PieceType>)
        ensures
            kind == PieceType::spec_from_code(code),
    {
        if code == 1 {
            Some(PieceType::King)
        } else if code == 2 {
            Some(PieceType::Pawn)
        } else if code == 3 {
            Some(PieceType::Rook)
        } else if code == 4 {
            Some(PieceType::Knight)
        } else if code == 5 {
            Some(PieceType::Bishop)
        } else if code == 6 {
            Some(PieceType::Queen)
        } else {
            None
        }
    }
}

/// What `color_of` returns.
pub open spec fn spec_color_of(piece: Piece) -> Option<Color> {
    match piece {
        Piece::Empty => None,
        Piece::Occupied { kind, color } => Some(color),
    }
}

/// The color of the man on a square; an empty square has none, and so
/// compares unequal to both colors.
#[verifier::when_used_as_spec(spec_color_of)]
pub fn color_of(piece: Piece) -> (color: Option<Color>)
    ensures
        color == spec_color_of(piece),
{
    match piece {
        Piece::Empty => None,
        Piece::Occupied { kind, color } => Some(color),
    }
}

/// What `type_of` returns.
pub open spec fn spec_type_of(piece: Piece) -> Option<PieceType> {
    match piece {
        Piece::Empty => None,
        Piece::Occupied { kind, color } => Some(kind),
    }
}

/// The kind of the man on a square; an empty square has none.
#[verifier::when_used_as_spec(spec_type_of)]
pub fn type_of(piece: Piece) -> (kind: Option<PieceType>)
    ensures
        kind == spec_type_of(piece),
{
    match piece {
        Piece::Empty => None,
        Piece::Occupied { kind, color } => Some(kind),
    }
}

/// What `encode` returns.
pub open spec fn spec_encode(piece: Piece) -> u8 {
    match piece {
        Piece::Empty => 0,
        Piece::Occupied { kind, color } => (color.spec_bits() + kind.spec_code()) as u8,
    }
}

/// The byte that stands for `piece`.
#[verifier::when_used_as_spec(spec_encode)]
pub fn encode(piece: Piece) -> (byte: u8)
    ensures
        byte == spec_encode(piece),
{
    match piece {
        Piece::Empty => 0,
        Piece::Occupied { kind, color } => color.bits() + kind.code(),
    }
}

/// What `is_valid_encoding` returns.
pub open spec fn spec_is_valid_encoding(byte: u8) -> bool {
    byte == 0 || 9 <= byte <= 14 || 17 <= byte <= 22
}

/// Whether `byte` is the encoding of some occupant.
#[verifier::when_used_as_spec(spec_is_valid_encoding)]
pub fn is_valid_encoding(byte: u8) -> (valid: bool)
    ensures
        valid == spec_is_valid_encoding(byte),
{
    byte == 0 || (9 <= byte && byte <= 14) || (17 <= byte && byte <= 22)
}

/// What `decode` returns.
pub open spec fn spec_decode(byte: u8) -> Piece {
    if 9 <= byte <= 14 {
        Piece::Occupied {
            kind: PieceType::spec_from_code((byte - 8) as u8).unwrap(),
            color: Color::Black,
        }
    } else if 17 <= byte <= 22 {
        Piece::Occupied {
            kind: PieceType::spec_from_code((byte - 16) as u8).unwrap(),
            color: Color::White,
        }
    } else {
        Piece::Empty
    }
}

/// The occupant that `byte` stands for. The empty byte, and every byte that
/// is no valid encoding, gives the empty square.
#[verifier::when_used_as_spec(spec_decode)]
pub fn decode(byte: u8) -> (piece: Piece)
    ensures
        piece == spec_decode(byte),
        !is_valid_encoding(byte) ==> piece == Piece::Empty,
{
    if 9 <= byte && byte <= 14 {
        match PieceType::from_code(byte - 8) {
            Some(kind) => Piece::Occupied { kind, color: Color::Black },
            None => Piece::Empty,
        }
    } else if 17 <= byte && byte <= 22 {
        match PieceType::from_code(byte - 16) {
            Some(kind) => Piece::Occupied { kind, color: Color::White },
            None => Piece::Empty,
        }
    } else {
        Piece::Empty
    }
}

/// Encoding and decoding are inverses of each other: every occupant comes
/// back from its byte, and its byte is a valid encoding.
pub proof fn lemma_decode_encode(piece: Piece)
    ensures
        is_valid_encoding(encode(piece)),
        decode(encode(piece)) == piece,
{
}

/// Every valid encoding comes back from the occupant it stands for.
pub proof fn lemma_encode_decode(byte: u8)
    requires
        is_valid_encoding(byte),
    ensures
        encode(decode(byte)) == byte,
{
}

/// The empty square is the only occupant without a color.
pub proof fn lemma_empty_has_no_color(piece: Piece, color: Color)
    ensures
        color_of(piece) is None <==> piece == Piece::Empty,
        color_of(Piece::Empty) != Some(color),
{
}

/// What `symbol` returns.
pub open spec fn spec_symbol(piece: Piece) -> char {
    match piece {
        Piece::Empty => ' ',
        Piece::Occupied { kind, color } => match (kind, color) {
            (PieceType::King, Color::White) => 'K',
            (PieceType::Queen, Color::White) => 'Q',
            (PieceType::Rook, Color::White) => 'R',
            (PieceType::Bishop, Color::White) => 'B',
            (PieceType::Knight, Color::White) => 'N',
            (PieceType::Pawn, Color::White) => 'P',
            (PieceType::King, Color::Black) => 'k',
            (PieceType::Queen, Color::Black) => 'q',
            (PieceType::Rook, Color::Black) => 'r',
            (PieceType::Bishop, Color::Black) => 'b',
            (PieceType::Knight, Color::Black) => 'n',
            (PieceType::Pawn, Color::Black) => 'p',
        },
    }
}

/// The letter of a man in a position string: upper case for White, lower
/// case for Black; a blank for the empty square.
#[verifier::when_used_as_spec(spec_symbol)]
pub fn symbol(piece: Piece) -> (letter: char)
    ensures
        letter == spec_symbol(piece),
{
    match piece {
        Piece::Empty => ' ',
        Piece::Occupied { kind, color } => match (kind, color) {
            (PieceType::King, Color::White) => 'K',
            (PieceType::Queen, Color::White) => 'Q',
            (PieceType::Rook, Color::White) => 'R',
            (PieceType::Bishop, Color::White) => 'B',
            (PieceType::Knight, Color::White) => 'N',
            (PieceType::Pawn, Color::White) => 'P',
            (PieceType::King, Color::Black) => 'k',
            (PieceType::Queen, Color::Black) => 'q',
            (PieceType::Rook, Color::Black) => 'r',
            (PieceType::Bishop, Color::Black) => 'b',
            (PieceType::Knight, Color::Black) => 'n',
            (PieceType::Pawn, Color::Black) => 'p',
        },
    }
}

/// What `from_symbol` returns.
pub open spec fn spec_from_symbol(letter: char) -> Option<Piece> {
    if letter == 'K' {
        Some(Piece::Occupied { kind: PieceType::King, color: Color::White })
    } else if letter == 'Q' {
        Some(Piece::Occupied { kind: PieceType::Queen, color: Color::White })
    } else if letter == 'R' {
        Some(Piece::Occupied { kind: PieceType::Rook, color: Color::White })
    } else if letter == 'B' {
        Some(Piece::Occupied { kind: PieceType::Bishop, color: Color::White })
    } else if letter == 'N' {
        Some(Piece::Occupied { kind: PieceType::Knight, color: Color::White })
    } else if letter == 'P' {
        Some(Piece::Occupied { kind: PieceType::Pawn, color: Color::White })
    } else if letter == 'k' {
        Some(Piece::Occupied { kind: PieceType::King, color: Color::Black })
    } else if letter == 'q' {
        Some(Piece::Occupied { kind: PieceType::Queen, color: Color::Black })
    } else if letter == 'r' {
        Some(Piece::Occupied { kind: PieceType::Rook, color: Color::Black })
    } else if letter == 'b' {
        Some(Piece::Occupied { kind: PieceType::Bishop, color: Color::Black })
    } else if letter == 'n' {
        Some(Piece::Occupied { kind: PieceType::Knight, color: Color::Black })
    } else if letter == 'p' {
        Some(Piece::Occupied { kind: PieceType::Pawn, color: Color::Black })
    } else {
        None
    }
}

/// The man that a letter of a position string stands for, if it is one of
/// `K Q R B N P` or `k q r b n p`.
#[verifier::when_used_as_spec(spec_from_symbol)]
pub fn from_symbol(letter: char) -> (piece: Option<Piece>)
    ensures
        piece == spec_from_symbol(letter),
{
    if letter == 'K' {
        Some(Piece::Occupied { kind: PieceType::King, color: Color::White })
    } else if letter == 'Q' {
        Some(Piece::Occupied { kind: PieceType::Queen, color: Color::White })
    } else if letter == 'R' {
        Some(Piece::Occupied { kind: PieceType::Rook, color: Color::White })
    } else if letter == 'B' {
        Some(Piece::Occupied { kind: PieceType::Bishop, color: Color::White })
    } else if letter == 'N' {
        Some(Piece::Occupied { kind: PieceType::Knight, color: Color::White })
    } else if letter == 'P' {
        Some(Piece::Occupied { kind: PieceType::Pawn, color: Color::White })
    } else if letter == 'k' {
        Some(Piece::Occupied { kind: PieceType::King, color: Color::Black })
    } else if letter == 'q' {
        Some(Piece::Occupied { kind: PieceType::Queen, color: Color::Black })
    } else if letter == 'r' {
        Some(Piece::Occupied { kind: PieceType::Rook, color: Color::Black })
    } else if letter == 'b' {
        Some(Piece::Occupied { kind: PieceType::Bishop, color: Color::Black })
    } else if letter == 'n' {
        Some(Piece::Occupied { kind: PieceType::Knight, color: Color::Black })
    } else if letter == 'p' {
        Some(Piece::Occupied { kind: PieceType::Pawn, color: Color::Black })
    } else {
        None
    }
}

/// A man comes back from its letter.
pub proof fn lemma_from_symbol_of_symbol(piece: Piece)
    requires
        piece != Piece::Empty,
    ensures
        from_symbol(symbol(piece)) == Some(piece),
{
}

} // verus!
