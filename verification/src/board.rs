//! The full board state: piece placement as bitboards, side to move,
//! castling rights, en-passant target, and the move counters.

use vstd::prelude::*;

use crate::bitboard::BitBoard;
use crate::bitboard::has;

verus! {

/// The owner of a piece, and whose turn it is to move.
#[derive(Clone, Copy, PartialEq, Eq, Structural, Debug)]
pub enum Color {
    White,
    Black,
}

/// The six piece kinds of chess.
#[derive(Clone, Copy, PartialEq, Eq, Structural, Debug)]
pub enum Piece {
    Pawn,
    Knight,
    Bishop,
    Rook,
    Queen,
    King,
}

/// The four independent castling rights: a right stays true only while the
/// corresponding king and rook have not yet left their home squares.
#[derive(Clone, Copy, PartialEq, Eq, Structural, Debug)]
pub struct CastleRights {
    pub white_short: bool,
    pub white_long: bool,
    pub black_short: bool,
    pub black_long: bool,
}

/// The full board state. Each piece-kind bitboard is the union across both
/// colors; `white` and `black` attribute every occupied square to its owner.
#[derive(Clone, Copy, PartialEq, Eq, Debug)]
pub struct Board {
    pub pawns: BitBoard,
    pub knights: BitBoard,
    pub bishops: BitBoard,
    pub rooks: BitBoard,
    pub queens: BitBoard,
    pub kings: BitBoard,
    pub white: BitBoard,
    pub black: BitBoard,
    pub side_to_move: Color,
    pub castle_rights: CastleRights,
    pub en_passant: Option<u8>,
    pub halfmove_clock: u32,
    pub fullmove_number: u32,
}

/// The other color.
pub open spec fn opp(c: Color) -> Color {
    match c {
        Color::White => Color::Black,
        Color::Black => Color::White,
    }
}

/// The occupancy bitboard of one color.
pub open spec fn color_bb(b: Board, c: Color) -> u64 {
    match c {
        Color::White => b.white.0,
        Color::Black => b.black.0,
    }
}

/// The bitboard of one piece kind (union across colors).
pub open spec fn kind_bb(b: Board, k: Piece) -> u64 {
    match k {
        Piece::Pawn => b.pawns.0,
        Piece::Knight => b.knights.0,
        Piece::Bishop => b.bishops.0,
        Piece::Rook => b.rooks.0,
        Piece::Queen => b.queens.0,
        Piece::King => b.kings.0,
    }
}

/// Square `sq` is occupied by either color.
pub open spec fn occupied(b: Board, sq: u64) -> bool {
    has(b.white.0, sq) || has(b.black.0, sq)
}

/// The kind of the piece on square `sq`, reading the six kind bitboards in a
/// fixed priority order (they are disjoint on a well-formed board).
pub open spec fn kind_at(b: Board, sq: u64) -> Option<Piece> {
    if has(b.pawns.0, sq) {
        Some(Piece::Pawn)
    } else if has(b.knights.0, sq) {
        Some(Piece::Knight)
    } else if has(b.bishops.0, sq) {
        Some(Piece::Bishop)
    } else if has(b.rooks.0, sq) {
        Some(Piece::Rook)
    } else if has(b.queens.0, sq) {
        Some(Piece::Queen)
    } else if has(b.kings.0, sq) {
        Some(Piece::King)
    } else {
        None
    }
}

/// The color of the piece on square `sq` (white wins the tie on a malformed
/// board; the two color boards are disjoint on a well-formed one).
pub open spec fn color_at(b: Board, sq: u64) -> Option<Color> {
    if has(b.white.0, sq) {
        Some(Color::White)
    } else if has(b.black.0, sq) {
        Some(Color::Black)
    } else {
        None
    }
}

/// Well-formedness at one square: the square holds at most one piece kind,
/// is color-occupied exactly when it holds a piece kind, and belongs to at
/// most one color.
pub open spec fn wf_at(b: Board, sq: u64) -> bool {
    &&& !(has(b.white.0, sq) && has(b.black.0, sq))
    &&& occupied(b, sq) == (kind_at(b, sq) is Some)
    &&& !(has(b.pawns.0, sq) && has(b.knights.0, sq))
    &&& !(has(b.pawns.0, sq) && has(b.bishops.0, sq))
    &&& !(has(b.pawns.0, sq) && has(b.rooks.0, sq))
    &&& !(has(b.pawns.0, sq) && has(b.queens.0, sq))
    &&& !(has(b.pawns.0, sq) && has(b.kings.0, sq))
    &&& !(has(b.knights.0, sq) && has(b.bishops.0, sq))
    &&& !(has(b.knights.0, sq) && has(b.rooks.0, sq))
    &&& !(has(b.knights.0, sq) && has(b.queens.0, sq))
    &&& !(has(b.knights.0, sq) && has(b.kings.0, sq))
    &&& !(has(b.bishops.0, sq) && has(b.rooks.0, sq))
    &&& !(has(b.bishops.0, sq) && has(b.queens.0, sq))
    &&& !(has(b.bishops.0, sq) && has(b.kings.0, sq))
    &&& !(has(b.rooks.0, sq) && has(b.queens.0, sq))
    &&& !(has(b.rooks.0, sq) && has(b.kings.0, sq))
    &&& !(has(b.queens.0, sq) && has(b.kings.0, sq))
}

/// Well-formedness: every square holds at most one piece kind, a square is
/// color-occupied exactly when it holds a piece kind, no square belongs to
/// both colors, and the en-passant target is a real square.
pub open spec fn wf(b: Board) -> bool {
    &&& forall|sq: u64| sq < 64 ==> #[trigger] wf_at(b, sq)
    &&& match b.en_passant {
        Some(t) => t < 64,
        None => true,
    }
}

/// The empty board: no pieces, White to move, no rights, clocks 0 and 1.
pub open spec fn spec_empty_board() -> Board {
    Board {
        pawns: BitBoard(0),
        knights: BitBoard(0),
        bishops: BitBoard(0),
        rooks: BitBoard(0),
        queens: BitBoard(0),
        kings: BitBoard(0),
        white: BitBoard(0),
        black: BitBoard(0),
        side_to_move: Color::White,
        castle_rights: CastleRights {
            white_short: false,
            white_long: false,
            black_short: false,
            black_long: false,
        },
        en_passant: None,
        halfmove_clock: 0,
        fullmove_number: 1,
    }
}

/// The standard starting position. Bit 0 is a8 and bit 63 is h1, so the black
/// back rank sits in the low byte and the white back rank in the high byte.
pub open spec fn spec_starting_position() -> Board {
    Board {
        pawns: BitBoard(0x00ff_0000_0000_ff00u64),
        knights: BitBoard(0x4200_0000_0000_0042u64),
        bishops: BitBoard(0x2400_0000_0000_0024u64),
        rooks: BitBoard(0x8100_0000_0000_0081u64),
        queens: BitBoard(0x0800_0000_0000_0008u64),
        kings: BitBoard(0x1000_0000_0000_0010u64),
        white: BitBoard(0xffff_0000_0000_0000u64),
        black: BitBoard(0x0000_0000_0000_ffffu64),
        side_to_move: Color::White,
        castle_rights: CastleRights {
            white_short: true,
            white_long: true,
            black_short: true,
            black_long: true,
        },
        en_passant: None,
        halfmove_clock: 0,
        fullmove_number: 1,
    }
}

impl Board {
    /// The empty board.
    pub fn new() -> (r: Board)
        ensures
            r == spec_empty_board(),
            wf(r),
    {
        proof {
            crate::bitboard::lemma_has_zero();
        }
        Board {
            pawns: BitBoard(0),
            knights: BitBoard(0),
            bishops: BitBoard(0),
            rooks: BitBoard(0),
            queens: BitBoard(0),
            kings: BitBoard(0),
            white: BitBoard(0),
            black: BitBoard(0),
            side_to_move: Color::White,
            castle_rights: CastleRights {
                white_short: false,
                white_long: false,
                black_short: false,
                black_long: false,
            },
            en_passant: None,
            halfmove_clock: 0,
            fullmove_number: 1,
        }
    }

    /// The standard starting position, with full castling rights, no
    /// en-passant target, halfmove clock 0 and fullmove number 1.
    pub fn starting_position() -> (r: Board)
        ensures
            r == spec_starting_position(),
            wf(r),
    {
        proof {
            lemma_starting_position_wf();
        }
        Board {
            pawns: BitBoard(0x00ff_0000_0000_ff00u64),
            knights: BitBoard(0x4200_0000_0000_0042u64),
            bishops: BitBoard(0x2400_0000_0000_0024u64),
            rooks: BitBoard(0x8100_0000_0000_0081u64),
            queens: BitBoard(0x0800_0000_0000_0008u64),
            kings: BitBoard(0x1000_0000_0000_0010u64),
            white: BitBoard(0xffff_0000_0000_0000u64),
            black: BitBoard(0x0000_0000_0000_ffffu64),
            side_to_move: Color::White,
            castle_rights: CastleRights {
                white_short: true,
                white_long: true,
                black_short: true,
                black_long: true,
            },
            en_passant: None,
            halfmove_clock: 0,
            fullmove_number: 1,
        }
    }

    /// The kind of the piece on `sq`, if any.
    pub fn kind_on(&self, sq: u64) -> (r: Option<Piece>)
        requires
            sq < 64,
        ensures
            r == kind_at(*self, sq),
    {
        if self.pawns.test(sq) {
            Some(Piece::Pawn)
        } else if self.knights.test(sq) {
            Some(Piece::Knight)
        } else if self.bishops.test(sq) {
            Some(Piece::Bishop)
        } else if self.rooks.test(sq) {
            Some(Piece::Rook)
        } else if self.queens.test(sq) {
            Some(Piece::Queen)
        } else if self.kings.test(sq) {
            Some(Piece::King)
        } else {
            None
        }
    }

    /// The color of the piece on `sq`, if any.
    pub fn color_on(&self, sq: u64) -> (r: Option<Color>)
        requires
            sq < 64,
        ensures
            r == color_at(*self, sq),
    {
        if self.white.test(sq) {
            Some(Color::White)
        } else if self.black.test(sq) {
            Some(Color::Black)
        } else {
            None
        }
    }

    /// Square `sq` is occupied by either color.
    pub fn is_occupied(&self, sq: u64) -> (r: bool)
        requires
            sq < 64,
        ensures
            r == occupied(*self, sq),
    {
        self.white.test(sq) || self.black.test(sq)
    }
}

/// The starting position is well formed.
pub proof fn lemma_starting_position_wf()
    ensures
        wf(spec_starting_position()),
{
    let b = spec_starting_position();
    assert(b.pawns.0 == 0x00ff_0000_0000_ff00u64);
    assert(b.knights.0 == 0x4200_0000_0000_0042u64);
    assert(b.bishops.0 == 0x2400_0000_0000_0024u64);
    assert(b.rooks.0 == 0x8100_0000_0000_0081u64);
    assert(b.queens.0 == 0x0800_0000_0000_0008u64);
    assert(b.kings.0 == 0x1000_0000_0000_0010u64);
    assert(b.white.0 == 0xffff_0000_0000_0000u64);
    assert(b.black.0 == 0x0000_0000_0000_ffffu64);
    assert forall|sq: u64| sq < 64 implies #[trigger] wf_at(b, sq) by {
        assert(has(0x00ff_0000_0000_ff00u64, sq) ==> !(has(0x4200_0000_0000_0042u64, sq))
            && !(has(0x2400_0000_0000_0024u64, sq)) && !(has(0x8100_0000_0000_0081u64, sq))
            && !(has(0x0800_0000_0000_0008u64, sq)) && !(has(0x1000_0000_0000_0010u64, sq)))
            by (bit_vector);
        assert(has(0x4200_0000_0000_0042u64, sq) ==> !(has(0x2400_0000_0000_0024u64, sq))
            && !(has(0x8100_0000_0000_0081u64, sq)) && !(has(0x0800_0000_0000_0008u64, sq))
            && !(has(0x1000_0000_0000_0010u64, sq))) by (bit_vector);
        assert(has(0x2400_0000_0000_0024u64, sq) ==> !(has(0x8100_0000_0000_0081u64, sq))
            && !(has(0x0800_0000_0000_0008u64, sq)) && !(has(0x1000_0000_0000_0010u64, sq)))
            by (bit_vector);
        assert(has(0x8100_0000_0000_0081u64, sq) ==> !(has(0x0800_0000_0000_0008u64, sq))
            && !(has(0x1000_0000_0000_0010u64, sq))) by (bit_vector);
        assert(has(0x0800_0000_0000_0008u64, sq) ==> !(has(0x1000_0000_0000_0010u64, sq)))
            by (bit_vector);
        assert(!(has(0xffff_0000_0000_0000u64, sq) && has(0x0000_0000_0000_ffffu64, sq)))
            by (bit_vector);
        assert((has(0xffff_0000_0000_0000u64, sq) || has(0x0000_0000_0000_ffffu64, sq)) == (has(
            0x00ff_0000_0000_ff00u64,
            sq,
        ) || has(0x4200_0000_0000_0042u64, sq) || has(0x2400_0000_0000_0024u64, sq) || has(
            0x8100_0000_0000_0081u64,
            sq,
        ) || has(0x0800_0000_0000_0008u64, sq) || has(0x1000_0000_0000_0010u64, sq)))
            by (bit_vector);
    }
}

} // verus!
