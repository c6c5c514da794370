//! Terminal-state classification: check, checkmate, stalemate and the draw
//! conditions, plus the position-identity hash used for threefold
//! repetition. The caller owns the history of prior position hashes; this
//! module only compares hashes.

use vstd::prelude::*;

use crate::bitboard::popcnt;
use crate::board::Board;
use crate::board::Color;
use crate::board::Piece;
use crate::board::color_at;
use crate::board::kind_at;
use crate::moves::in_check;
use crate::movegen::spec_legal_moves;

verus! {

/// The verdict on a position, given the caller's history of prior position
/// hashes. `Check` reports a non-terminal check; the mate, stalemate and
/// draw verdicts are terminal.
#[derive(Clone, Copy, PartialEq, Eq, Structural, Debug)]
pub enum GameState {
    Ongoing,
    Check,
    Checkmate,
    Stalemate,
    DrawFiftyMove,
    DrawInsufficientMaterial,
    DrawThreefold,
}

/// Neither side retains material that could force checkmate: no pawns,
/// rooks or queens anywhere, and at most one minor piece on the board
/// (king vs king, or king and one minor vs king).
pub open spec fn insufficient_material(b: Board) -> bool {
    &&& popcnt(b.pawns.0, 64) == 0
    &&& popcnt(b.rooks.0, 64) == 0
    &&& popcnt(b.queens.0, 64) == 0
    &&& popcnt(b.knights.0, 64) + popcnt(b.bishops.0, 64) <= 1
}

/// A 64-bit mixing function (the splitmix64 finalizer): the key generator
/// for the position-identity hash.
pub open spec fn mix(x: u64) -> u64 {
    let z = x.wrapping_add(0x9e3779b97f4a7c15u64);
    let z1 = (z ^ (z >> 30)).wrapping_mul(0xbf58476d1ce4e5b9u64);
    let z2 = (z1 ^ (z1 >> 27)).wrapping_mul(0x94d049bb133111ebu64);
    z2 ^ (z2 >> 31)
}

/// A fixed index per piece kind, for key derivation only.
pub open spec fn kind_index(k: Piece) -> u64 {
    match k {
        Piece::Pawn => 0,
        Piece::Knight => 1,
        Piece::Bishop => 2,
        Piece::Rook => 3,
        Piece::Queen => 4,
        Piece::King => 5,
    }
}

/// The hash contribution of one square: a key derived from the square and
/// the piece standing on it, or 0 for an empty square.
pub open spec fn hash_sq(b: Board, sq: u64) -> u64 {
    match (kind_at(b, sq), color_at(b, sq)) {
        (Some(k), Some(c)) => mix(
            (1 + sq + 64 * kind_index(k) + 384 * (if c == Color::Black {
                1u64
            } else {
                0u64
            })) as u64,
        ),
        _ => 0,
    }
}

/// The placement hash over squares `0 .. n`.
pub open spec fn hash_upto(b: Board, n: u64) -> u64
    decreases n,
{
    if n == 0 {
        0
    } else {
        hash_upto(b, (n - 1) as u64) ^ hash_sq(b, (n - 1) as u64)
    }
}

/// The position-identity hash: piece placement, side to move, castling
/// rights and en-passant file, each contributing an independent key.
pub open spec fn spec_hash(b: Board) -> u64 {
    let h0 = hash_upto(b, 64);
    let h1 = if b.side_to_move == Color::Black {
        h0 ^ mix(769)
    } else {
        h0
    };
    let h2 = if b.castle_rights.white_short {
        h1 ^ mix(770)
    } else {
        h1
    };
    let h3 = if b.castle_rights.white_long {
        h2 ^ mix(771)
    } else {
        h2
    };
    let h4 = if b.castle_rights.black_short {
        h3 ^ mix(772)
    } else {
        h3
    };
    let h5 = if b.castle_rights.black_long {
        h4 ^ mix(773)
    } else {
        h4
    };
    match b.en_passant {
        Some(t) => h5 ^ mix((774 + (t as u64) % 8) as u64),
        None => h5,
    }
}

/// The number of occurrences of `x` in `s`.
pub open spec fn count_in(s: Seq<u64>, x: u64) -> nat
    decreases s.len(),
{
    if s.len() == 0 {
        0
    } else {
        count_in(s.drop_last(), x) + if s.last() == x {
            1nat
        } else {
            0nat
        }
    }
}

/// The verdict on `b` given the prior position hashes `hist`: no legal
/// moves is checkmate or stalemate (told apart by check); otherwise the
/// fifty-move rule (halfmove clock at 100 half-moves), insufficient
/// material, and threefold repetition (the current hash already appears at
/// least twice in the history) are checked in that order; otherwise the
/// position is a plain check or ongoing.
pub open spec fn spec_classify(b: Board, hist: Seq<u64>) -> GameState {
    if spec_legal_moves(b).len() == 0 {
        if in_check(b, b.side_to_move) {
            GameState::Checkmate
        } else {
            GameState::Stalemate
        }
    } else if b.halfmove_clock >= 100 {
        GameState::DrawFiftyMove
    } else if insufficient_material(b) {
        GameState::DrawInsufficientMaterial
    } else if count_in(hist, spec_hash(b)) >= 2 {
        GameState::DrawThreefold
    } else if in_check(b, b.side_to_move) {
        GameState::Check
    } else {
        GameState::Ongoing
    }
}

/// The mixing function; the executable mirror of `mix`.
fn mix_on(x: u64) -> (r: u64)
    ensures
        r == mix(x),
{
    let z = x.wrapping_add(0x9e3779b97f4a7c15u64);
    let z1 = (z ^ (z >> 30)).wrapping_mul(0xbf58476d1ce4e5b9u64);
    let z2 = (z1 ^ (z1 >> 27)).wrapping_mul(0x94d049bb133111ebu64);
    z2 ^ (z2 >> 31)
}

impl Board {
    /// The position-identity hash over placement, side to move, castling
    /// rights and en-passant file; equal positions hash equally, so a
    /// caller can keep a history of these for repetition detection.
    pub fn zobrist_hash(&self) -> (r: u64)
        ensures
            r == spec_hash(*self),
    {
        let mut h: u64 = 0;
        let mut sq: u64 = 0;
        while sq < 64
            invariant
                sq <= 64,
                h == hash_upto(*self, sq),
            decreases 64 - sq,
        {
            let contribution = match (self.kind_on(sq), self.color_on(sq)) {
                (Some(k), Some(c)) => {
                    let ki: u64 = match k {
                        Piece::Pawn => 0,
                        Piece::Knight => 1,
                        Piece::Bishop => 2,
                        Piece::Rook => 3,
                        Piece::Queen => 4,
                        Piece::King => 5,
                    };
                    let ci: u64 = match c {
                        Color::White => 0,
                        Color::Black => 1,
                    };
                    mix_on(1 + sq + 64 * ki + 384 * ci)
                },
                _ => 0,
            };
            h = h ^ contribution;
            sq = sq + 1;
        }
        let h1 = match self.side_to_move {
            Color::Black => h ^ mix_on(769),
            Color::White => h,
        };
        let h2 = if self.castle_rights.white_short {
            h1 ^ mix_on(770)
        } else {
            h1
        };
        let h3 = if self.castle_rights.white_long {
            h2 ^ mix_on(771)
        } else {
            h2
        };
        let h4 = if self.castle_rights.black_short {
            h3 ^ mix_on(772)
        } else {
            h3
        };
        let h5 = if self.castle_rights.black_long {
            h4 ^ mix_on(773)
        } else {
            h4
        };
        match self.en_passant {
            Some(t) => h5 ^ mix_on(774 + (t as u64) % 8),
            None => h5,
        }
    }

    /// Classifies this position given the caller-maintained history of
    /// prior position hashes; the executable mirror of `spec_classify`.
    pub fn classify(&self, history: &Vec<u64>) -> (r: GameState)
        ensures
            r == spec_classify(*self, history@),
    {
        let moves = crate::movegen::generate_legal_moves(self);
        if moves.len() == 0 {
            if crate::moves::is_in_check(self, self.side_to_move) {
                GameState::Checkmate
            } else {
                GameState::Stalemate
            }
        } else if self.halfmove_clock >= 100 {
            GameState::DrawFiftyMove
        } else if self.pawns.count() == 0 && self.rooks.count() == 0 && self.queens.count() == 0
            && self.knights.count() + self.bishops.count() <= 1 {
            GameState::DrawInsufficientMaterial
        } else {
            let h = self.zobrist_hash();
            let mut n: usize = 0;
            let mut i: usize = 0;
            while i < history.len()
                invariant
                    i <= history@.len(),
                    n == count_in(history@.subrange(0, i as int), h),
                    n <= i,
                decreases history@.len() - i,
            {
                if history[i] == h {
                    n = n + 1;
                }
                proof {
                    assert(history@.subrange(0, i + 1).drop_last() =~= history@.subrange(
                        0,
                        i as int,
                    ));
                    assert(history@.subrange(0, i + 1).last() == history@[i as int]);
                }
                i = i + 1;
            }
            proof {
                assert(history@.subrange(0, history@.len() as int) =~= history@);
            }
            if n >= 2 {
                GameState::DrawThreefold
            } else if crate::moves::is_in_check(self, self.side_to_move) {
                GameState::Check
            } else {
                GameState::Ongoing
            }
        }
    }
}

} // verus!
