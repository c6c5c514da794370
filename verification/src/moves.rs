//! Moves and move application: the movement rules of chess as spec
//! predicates, and the applier that produces the successor position.

use vstd::prelude::*;

use crate::attacks::attacked;
use crate::attacks::file_of;
use crate::attacks::king_attacks;
use crate::attacks::pawn_attacks;
use crate::attacks::pawn_dir;
use crate::attacks::piece_attacks;
use crate::attacks::rank_of;
use crate::bitboard::BitBoard;
use crate::bitboard::has;
use crate::bitboard::with_sq;
use crate::bitboard::without_sq;
use crate::board::Board;
use crate::board::CastleRights;
use crate::board::Color;
use crate::board::Piece;
use crate::board::color_at;
use crate::board::color_bb;
use crate::board::kind_at;
use crate::board::kind_bb;
use crate::board::occupied;
use crate::board::opp;

verus! {

/// How a move changes the board, derivable from origin, destination, moving
/// piece and target occupancy; kept on the move for fast dispatch.
#[derive(Clone, Copy, PartialEq, Eq, Structural, Debug)]
pub enum MoveKind {
    Quiet,
    Capture,
    DoublePawnPush,
    EnPassantCapture,
    CastleShort,
    CastleLong,
    Promotion,
    PromotionCapture,
}

/// A move: origin and destination squares, the promotion piece for pawn
/// moves reaching the last rank, and the derived kind tag.
#[derive(Clone, Copy, PartialEq, Eq, Debug)]
pub struct Move {
    pub from: u8,
    pub to: u8,
    pub promotion: Option<Piece>,
    pub kind: MoveKind,
}

/// The rank index a pawn of color `c` double-pushes from.
pub open spec fn home_rank(c: Color) -> int {
    match c {
        Color::White => 6,
        Color::Black => 1,
    }
}

/// The rank index a pawn of color `c` promotes on.
pub open spec fn promo_rank(c: Color) -> int {
    match c {
        Color::White => 0,
        Color::Black => 7,
    }
}

/// The square of the pawn captured en passant: one rank behind the target,
/// from the mover's point of view.
pub open spec fn ep_victim(c: Color, to: int) -> int {
    to - 8 * pawn_dir(c)
}

/// A pawn of the side to move stands on `from` and `m` is an en-passant
/// capture: a diagonal pawn move onto the (empty) en-passant target square.
pub open spec fn is_ep_capture(b: Board, m: Move) -> bool {
    &&& kind_at(b, m.from as u64) == Some(Piece::Pawn)
    &&& b.en_passant == Some(m.to)
    &&& file_of(m.to as int) != file_of(m.from as int)
    &&& !occupied(b, m.to as u64)
}

/// The destination holds an enemy piece.
pub open spec fn is_capture(b: Board, m: Move) -> bool {
    color_at(b, m.to as u64) == Some(opp(b.side_to_move))
}

/// The pawn movement rules: single push onto an empty square, double push
/// from the home rank across two empty squares, diagonal capture of an enemy
/// piece, or diagonal move onto the en-passant target square.
pub open spec fn pawn_move_ok(b: Board, c: Color, from: int, to: int) -> bool {
    let d = pawn_dir(c);
    ||| (to == from + 8 * d && !occupied(b, to as u64))
    ||| (rank_of(from) == home_rank(c) && to == from + 16 * d && !occupied(
        b,
        (from + 8 * d) as u64,
    ) && !occupied(b, to as u64))
    ||| (pawn_attacks(c, from, to) && color_at(b, to as u64) == Some(opp(c)))
    ||| (pawn_attacks(c, from, to) && b.en_passant == Some(to as u8) && !occupied(b, to as u64))
}

/// The castling rules: the right is intact, the corresponding rook stands on
/// its home square, the squares between king and rook are empty, and neither
/// the king's square nor any square it crosses (destination included) is
/// attacked by the opponent.
pub open spec fn castle_ok(b: Board, c: Color, from: int, to: int) -> bool {
    match c {
        Color::White => {
            ||| (from == 60 && to == 62 && b.castle_rights.white_short && has(b.rooks.0, 63)
                && has(b.white.0, 63) && !occupied(b, 61) && !occupied(b, 62) && !attacked(
                b,
                Color::Black,
                60,
            ) && !attacked(b, Color::Black, 61) && !attacked(b, Color::Black, 62))
            ||| (from == 60 && to == 58 && b.castle_rights.white_long && has(b.rooks.0, 56)
                && has(b.white.0, 56) && !occupied(b, 57) && !occupied(b, 58) && !occupied(b, 59)
                && !attacked(b, Color::Black, 60) && !attacked(b, Color::Black, 59) && !attacked(
                b,
                Color::Black,
                58,
            ))
        },
        Color::Black => {
            ||| (from == 4 && to == 6 && b.castle_rights.black_short && has(b.rooks.0, 7) && has(
                b.black.0,
                7,
            ) && !occupied(b, 5) && !occupied(b, 6) && !attacked(b, Color::White, 4) && !attacked(
                b,
                Color::White,
                5,
            ) && !attacked(b, Color::White, 6))
            ||| (from == 4 && to == 2 && b.castle_rights.black_long && has(b.rooks.0, 0) && has(
                b.black.0,
                0,
            ) && !occupied(b, 1) && !occupied(b, 2) && !occupied(b, 3) && !attacked(
                b,
                Color::White,
                4,
            ) && !attacked(b, Color::White, 3) && !attacked(b, Color::White, 2))
        },
    }
}

/// The movement rules for `m`, ignoring the kind tag, the promotion field
/// and check: the origin holds a piece of the side to move, the destination
/// does not hold a friendly piece, and the piece moves by its pattern.
pub open spec fn base_ok(b: Board, m: Move) -> bool {
    let c = b.side_to_move;
    let from = m.from as int;
    let to = m.to as int;
    &&& m.from < 64
    &&& m.to < 64
    &&& m.from != m.to
    &&& color_at(b, m.from as u64) == Some(c)
    &&& color_at(b, m.to as u64) != Some(c)
    &&& match kind_at(b, m.from as u64) {
        Some(Piece::Pawn) => pawn_move_ok(b, c, from, to),
        Some(Piece::King) => king_attacks(from, to) || castle_ok(b, c, from, to),
        Some(k) => piece_attacks(b, c, k, from, to),
        None => false,
    }
}

/// The kind tag that a move from `from` to `to` must carry on board `b`.
pub open spec fn derive_kind(b: Board, from: int, to: int) -> MoveKind {
    let c = b.side_to_move;
    match kind_at(b, from as u64) {
        Some(Piece::Pawn) => {
            if to == from + 16 * pawn_dir(c) {
                MoveKind::DoublePawnPush
            } else if b.en_passant == Some(to as u8) && file_of(to) != file_of(from) && !occupied(
                b,
                to as u64,
            ) {
                MoveKind::EnPassantCapture
            } else if color_at(b, to as u64) == Some(opp(c)) {
                if rank_of(to) == promo_rank(c) {
                    MoveKind::PromotionCapture
                } else {
                    MoveKind::Capture
                }
            } else {
                if rank_of(to) == promo_rank(c) {
                    MoveKind::Promotion
                } else {
                    MoveKind::Quiet
                }
            }
        },
        Some(Piece::King) => {
            if (from == 60 && to == 62) || (from == 4 && to == 6) {
                MoveKind::CastleShort
            } else if (from == 60 && to == 58) || (from == 4 && to == 2) {
                MoveKind::CastleLong
            } else if color_at(b, to as u64) == Some(opp(c)) {
                MoveKind::Capture
            } else {
                MoveKind::Quiet
            }
        },
        Some(_) => {
            if color_at(b, to as u64) == Some(opp(c)) {
                MoveKind::Capture
            } else {
                MoveKind::Quiet
            }
        },
        None => MoveKind::Quiet,
    }
}

/// The promotion field is set, to one of the four promotion pieces, exactly
/// when a pawn moves onto its promotion rank.
pub open spec fn promo_ok(b: Board, m: Move) -> bool {
    if kind_at(b, m.from as u64) == Some(Piece::Pawn) && rank_of(m.to as int) == promo_rank(
        b.side_to_move,
    ) {
        ||| m.promotion == Some(Piece::Knight)
        ||| m.promotion == Some(Piece::Bishop)
        ||| m.promotion == Some(Piece::Rook)
        ||| m.promotion == Some(Piece::Queen)
    } else {
        m.promotion is None
    }
}

/// A pseudo-legal move: it follows the movement rules, carries the derived
/// kind tag, and its promotion field is consistent. It may still leave the
/// mover's own king in check.
pub open spec fn pseudo_legal(b: Board, m: Move) -> bool {
    &&& base_ok(b, m)
    &&& m.kind == derive_kind(b, m.from as int, m.to as int)
    &&& promo_ok(b, m)
}

/// The board with the bitboard of kind `k` replaced by `v`.
pub open spec fn set_kind_bb(bd: Board, k: Piece, v: u64) -> Board {
    match k {
        Piece::Pawn => Board { pawns: BitBoard(v), ..bd },
        Piece::Knight => Board { knights: BitBoard(v), ..bd },
        Piece::Bishop => Board { bishops: BitBoard(v), ..bd },
        Piece::Rook => Board { rooks: BitBoard(v), ..bd },
        Piece::Queen => Board { queens: BitBoard(v), ..bd },
        Piece::King => Board { kings: BitBoard(v), ..bd },
    }
}

/// The board with the occupancy bitboard of color `c` replaced by `v`.
pub open spec fn set_color_bb(bd: Board, c: Color, v: u64) -> Board {
    match c {
        Color::White => Board { white: BitBoard(v), ..bd },
        Color::Black => Board { black: BitBoard(v), ..bd },
    }
}

/// The board with the piece of kind `k` and color `c` removed from `sq`.
pub open spec fn clear_piece(bd: Board, k: Piece, c: Color, sq: u64) -> Board {
    let b1 = set_kind_bb(bd, k, without_sq(kind_bb(bd, k), sq));
    set_color_bb(b1, c, without_sq(color_bb(b1, c), sq))
}

/// The board with a piece of kind `k` and color `c` placed on `sq`.
pub open spec fn put_piece(bd: Board, k: Piece, c: Color, sq: u64) -> Board {
    let b1 = set_kind_bb(bd, k, with_sq(kind_bb(bd, k), sq));
    set_color_bb(b1, c, with_sq(color_bb(b1, c), sq))
}

/// One saturating increment of a move counter.
pub open spec fn tick(n: u32) -> u32 {
    if n == 0xffff_ffffu32 {
        n
    } else {
        (n + 1) as u32
    }
}

/// The castling rights after a move: a side's rights fall when its king
/// moves; a single right falls when its rook's home square is left or is
/// captured on.
pub open spec fn rights_after(b: Board, m: Move, k: Piece) -> CastleRights {
    let c = b.side_to_move;
    let cr = b.castle_rights;
    CastleRights {
        white_short: cr.white_short && !(c == Color::White && k == Piece::King) && m.from != 63
            && m.to != 63,
        white_long: cr.white_long && !(c == Color::White && k == Piece::King) && m.from != 56
            && m.to != 56,
        black_short: cr.black_short && !(c == Color::Black && k == Piece::King) && m.from != 7
            && m.to != 7,
        black_long: cr.black_long && !(c == Color::Black && k == Piece::King) && m.from != 0
            && m.to != 0,
    }
}

/// The position after playing `m` on `b`: bitboards updated (including the
/// en-passant victim and the castling rook), castling rights and en-passant
/// target recomputed, clocks ticked, side to move flipped. Total as a
/// function; meaningful when `m` is pseudo-legal. When the origin square is
/// empty the board is returned unchanged.
pub open spec fn spec_apply(b: Board, m: Move) -> Board {
    match kind_at(b, m.from as u64) {
        None => b,
        Some(k) => {
            let c = b.side_to_move;
            let from = m.from as u64;
            let to = m.to as u64;
            let capture = is_capture(b, m);
            let ep_cap = is_ep_capture(b, m);
            let b1 = clear_piece(b, k, c, from);
            let b2 = if capture {
                match kind_at(b, to) {
                    Some(ck) => clear_piece(b1, ck, opp(c), to),
                    None => set_color_bb(b1, opp(c), without_sq(color_bb(b1, opp(c)), to)),
                }
            } else {
                b1
            };
            let b3 = if ep_cap {
                clear_piece(b2, Piece::Pawn, opp(c), ep_victim(c, m.to as int) as u64)
            } else {
                b2
            };
            let placed = if k == Piece::Pawn && rank_of(m.to as int) == promo_rank(c) {
                match m.promotion {
                    Some(p) => p,
                    None => Piece::Queen,
                }
            } else {
                k
            };
            let b4 = put_piece(b3, placed, c, to);
            let b5 = if k == Piece::King && from == 60 && to == 62 {
                put_piece(clear_piece(b4, Piece::Rook, c, 63), Piece::Rook, c, 61)
            } else if k == Piece::King && from == 60 && to == 58 {
                put_piece(clear_piece(b4, Piece::Rook, c, 56), Piece::Rook, c, 59)
            } else if k == Piece::King && from == 4 && to == 6 {
                put_piece(clear_piece(b4, Piece::Rook, c, 7), Piece::Rook, c, 5)
            } else if k == Piece::King && from == 4 && to == 2 {
                put_piece(clear_piece(b4, Piece::Rook, c, 0), Piece::Rook, c, 3)
            } else {
                b4
            };
            Board {
                side_to_move: opp(c),
                castle_rights: rights_after(b, m, k),
                en_passant: if k == Piece::Pawn && m.to as int == m.from as int + 16 * pawn_dir(c) {
                    Some(((m.from + m.to) / 2) as u8)
                } else {
                    None
                },
                halfmove_clock: if k == Piece::Pawn || capture || ep_cap {
                    0
                } else {
                    tick(b.halfmove_clock)
                },
                fullmove_number: if c == Color::Black {
                    tick(b.fullmove_number)
                } else {
                    b.fullmove_number
                },
                ..b5
            }
        },
    }
}

/// A king of color `c` stands on `sq` and is attacked by the opponent.
pub open spec fn king_checked_at(b: Board, c: Color, sq: int) -> bool {
    &&& has(b.kings.0, sq as u64)
    &&& has(color_bb(b, c), sq as u64)
    &&& attacked(b, opp(c), sq)
}

/// The side `c` is in check: one of its kings is attacked by the opponent.
pub open spec fn in_check(b: Board, c: Color) -> bool {
    exists|sq: int| 0 <= sq < 64 && #[trigger] king_checked_at(b, c, sq)
}

/// A legal move: pseudo-legal, and playing it does not leave the mover's own
/// king in check. This single gate uniformly covers pins and discovered
/// check.
pub open spec fn legal(b: Board, m: Move) -> bool {
    &&& pseudo_legal(b, m)
    &&& !in_check(spec_apply(b, m), b.side_to_move)
}

/// Whether side `c` is in check; the executable mirror of `in_check`.
pub fn is_in_check(b: &Board, c: Color) -> (r: bool)
    ensures
        r == in_check(*b, c),
{
    let mut sq: u8 = 0;
    while sq < 64
        invariant
            sq <= 64,
            forall|j: int| 0 <= j < sq ==> !(#[trigger] king_checked_at(*b, c, j)),
        decreases 64 - sq,
    {
        let own_king = b.kings.test(sq as u64) && match c {
            Color::White => b.white.test(sq as u64),
            Color::Black => b.black.test(sq as u64),
        };
        if own_king && crate::attacks::is_attacked(b, match c {
            Color::White => Color::Black,
            Color::Black => Color::White,
        }, sq) {
            assert(king_checked_at(*b, c, sq as int));
            return true;
        }
        assert(!(king_checked_at(*b, c, sq as int)));
        sq = sq + 1;
    }
    false
}

impl Board {
    /// Applies a pseudo-legal move, producing the successor position. The
    /// caller must supply a move from the generator's output (or at least a
    /// pseudo-legal one); legality is not re-checked here.
    pub fn apply(&self, m: &Move) -> (r: Board)
        requires
            pseudo_legal(*self, *m),
        ensures
            r == spec_apply(*self, *m),
    {
        let c = self.side_to_move;
        let enemy = match c {
            Color::White => Color::Black,
            Color::Black => Color::White,
        };
        let from = m.from as u64;
        let to = m.to as u64;
        let k = match self.kind_on(from) {
            Some(k) => k,
            None => {
                return vstd::pervasive::unreached();
            },
        };
        let capture = match self.color_on(to) {
            Some(owner) => owner == enemy,
            None => false,
        };
        let ep_cap = k == Piece::Pawn && self.en_passant == Some(m.to) && m.to % 8 != m.from % 8
            && !self.is_occupied(to);
        assert(capture == is_capture(*self, *m));
        assert(ep_cap == is_ep_capture(*self, *m));
        let b1 = clear_piece_on(*self, k, c, from);
        let b2 = if capture {
            match self.kind_on(to) {
                Some(ck) => clear_piece_on(b1, ck, enemy, to),
                None => set_enemy_cleared(b1, enemy, to),
            }
        } else {
            b1
        };
        let b3 = if ep_cap {
            let victim: u64 = match c {
                Color::White => to + 8,
                Color::Black => to - 8,
            };
            assert(victim == ep_victim(c, m.to as int) as u64);
            clear_piece_on(b2, Piece::Pawn, enemy, victim)
        } else {
            b2
        };
        let last_rank = match c {
            Color::White => m.to < 8,
            Color::Black => m.to >= 56,
        };
        let placed = if k == Piece::Pawn && last_rank {
            match m.promotion {
                Some(p) => p,
                None => Piece::Queen,
            }
        } else {
            k
        };
        let b4 = put_piece_on(b3, placed, c, to);
        let b5 = if k == Piece::King && m.from == 60 && m.to == 62 {
            put_piece_on(clear_piece_on(b4, Piece::Rook, c, 63), Piece::Rook, c, 61)
        } else if k == Piece::King && m.from == 60 && m.to == 58 {
            put_piece_on(clear_piece_on(b4, Piece::Rook, c, 56), Piece::Rook, c, 59)
        } else if k == Piece::King && m.from == 4 && m.to == 6 {
            put_piece_on(clear_piece_on(b4, Piece::Rook, c, 7), Piece::Rook, c, 5)
        } else if k == Piece::King && m.from == 4 && m.to == 2 {
            put_piece_on(clear_piece_on(b4, Piece::Rook, c, 0), Piece::Rook, c, 3)
        } else {
            b4
        };
        let cr = self.castle_rights;
        let new_rights = CastleRights {
            white_short: cr.white_short && !(c == Color::White && k == Piece::King) && m.from != 63
                && m.to != 63,
            white_long: cr.white_long && !(c == Color::White && k == Piece::King) && m.from != 56
                && m.to != 56,
            black_short: cr.black_short && !(c == Color::Black && k == Piece::King) && m.from != 7
                && m.to != 7,
            black_long: cr.black_long && !(c == Color::Black && k == Piece::King) && m.from != 0
                && m.to != 0,
        };
        let double_push = k == Piece::Pawn && (match c {
            Color::White => m.to + 16 == m.from,
            Color::Black => m.from + 16 == m.to,
        });
        let new_ep = if double_push {
            Some((m.from + m.to) / 2)
        } else {
            None
        };
        let new_half: u32 = if k == Piece::Pawn || capture || ep_cap {
            0
        } else if self.halfmove_clock == 0xffff_ffffu32 {
            0xffff_ffffu32
        } else {
            self.halfmove_clock + 1
        };
        let new_full: u32 = if c == Color::Black {
            if self.fullmove_number == 0xffff_ffffu32 {
                0xffff_ffffu32
            } else {
                self.fullmove_number + 1
            }
        } else {
            self.fullmove_number
        };
        Board {
            side_to_move: enemy,
            castle_rights: new_rights,
            en_passant: new_ep,
            halfmove_clock: new_half,
            fullmove_number: new_full,
            ..b5
        }
    }
}

/// Removes the piece of kind `k` and color `c` from `sq`.
fn clear_piece_on(bd: Board, k: Piece, c: Color, sq: u64) -> (r: Board)
    requires
        sq < 64,
    ensures
        r == clear_piece(bd, k, c, sq),
{
    let b1 = match k {
        Piece::Pawn => Board { pawns: bd.pawns.clear(sq), ..bd },
        Piece::Knight => Board { knights: bd.knights.clear(sq), ..bd },
        Piece::Bishop => Board { bishops: bd.bishops.clear(sq), ..bd },
        Piece::Rook => Board { rooks: bd.rooks.clear(sq), ..bd },
        Piece::Queen => Board { queens: bd.queens.clear(sq), ..bd },
        Piece::King => Board { kings: bd.kings.clear(sq), ..bd },
    };
    match c {
        Color::White => Board { white: b1.white.clear(sq), ..b1 },
        Color::Black => Board { black: b1.black.clear(sq), ..b1 },
    }
}

/// Places a piece of kind `k` and color `c` on `sq`.
pub(crate) fn put_piece_on(bd: Board, k: Piece, c: Color, sq: u64) -> (r: Board)
    requires
        sq < 64,
    ensures
        r == put_piece(bd, k, c, sq),
{
    let b1 = match k {
        Piece::Pawn => Board { pawns: bd.pawns.set(sq), ..bd },
        Piece::Knight => Board { knights: bd.knights.set(sq), ..bd },
        Piece::Bishop => Board { bishops: bd.bishops.set(sq), ..bd },
        Piece::Rook => Board { rooks: bd.rooks.set(sq), ..bd },
        Piece::Queen => Board { queens: bd.queens.set(sq), ..bd },
        Piece::King => Board { kings: bd.kings.set(sq), ..bd },
    };
    match c {
        Color::White => Board { white: b1.white.set(sq), ..b1 },
        Color::Black => Board { black: b1.black.set(sq), ..b1 },
    }
}

/// Removes a color-occupancy bit alone (capture of a square that a
/// malformed board attributes to a color without a kind).
fn set_enemy_cleared(bd: Board, c: Color, sq: u64) -> (r: Board)
    requires
        sq < 64,
    ensures
        r == set_color_bb(bd, c, without_sq(color_bb(bd, c), sq)),
{
    match c {
        Color::White => Board { white: bd.white.clear(sq), ..bd },
        Color::Black => Board { black: bd.black.clear(sq), ..bd },
    }
}

} // verus!
