//! Legal move generation: every move allowed by the rules of chess from a
//! given position, in a fixed board order (origin square, then destination
//! square, then promotion piece Queen, Rook, Bishop, Knight).

use vstd::prelude::*;

use crate::board::Board;
use crate::board::Color;
use crate::board::Piece;
use crate::board::kind_at;
use crate::moves::Move;
use crate::moves::MoveKind;
use crate::moves::derive_kind;
use crate::moves::legal;
use crate::moves::promo_rank;
use crate::moves::pseudo_legal;
use crate::attacks::rank_of;

verus! {

/// The one-element sequence holding `m` when it is legal on `b`, else empty.
pub open spec fn keep(b: Board, m: Move) -> Seq<Move> {
    if legal(b, m) {
        seq![m]
    } else {
        Seq::<Move>::empty()
    }
}

/// A move value with the given coordinates, promotion and tag.
pub open spec fn mk_move(from: int, to: int, promotion: Option<Piece>, kind: MoveKind) -> Move {
    Move { from: from as u8, to: to as u8, promotion, kind }
}

/// The pair (from, to) is a pawn move onto the promotion rank, so it expands
/// into four promotion variants.
pub open spec fn promo_pair(b: Board, from: int, to: int) -> bool {
    kind_at(b, from as u64) == Some(Piece::Pawn) && rank_of(to) == promo_rank(b.side_to_move)
}

/// The legal moves with origin `from` and destination `to`, in the canonical
/// promotion order Queen, Rook, Bishop, Knight.
pub open spec fn pair_moves(b: Board, from: int, to: int) -> Seq<Move> {
    let k = derive_kind(b, from, to);
    if promo_pair(b, from, to) {
        keep(b, mk_move(from, to, Some(Piece::Queen), k)) + keep(
            b,
            mk_move(from, to, Some(Piece::Rook), k),
        ) + keep(b, mk_move(from, to, Some(Piece::Bishop), k)) + keep(
            b,
            mk_move(from, to, Some(Piece::Knight), k),
        )
    } else {
        keep(b, mk_move(from, to, None, k))
    }
}

/// The legal moves among the first `n` (origin, destination) pairs in board
/// order: pair `p` is origin `p / 64`, destination `p % 64`.
pub open spec fn moves_upto(b: Board, n: int) -> Seq<Move>
    decreases n,
{
    if n <= 0 {
        Seq::<Move>::empty()
    } else {
        moves_upto(b, n - 1) + pair_moves(b, (n - 1) / 64, (n - 1) % 64)
    }
}

/// All legal moves of `b`, in canonical board order.
pub open spec fn spec_legal_moves(b: Board) -> Seq<Move> {
    moves_upto(b, 4096)
}

/// Whether the pawn movement rules allow `from -> to`; the executable
/// mirror of `pawn_move_ok`.
fn pawn_ok(b: &Board, c: Color, from: u8, to: u8) -> (r: bool)
    requires
        from < 64,
        to < 64,
    ensures
        r == crate::moves::pawn_move_ok(*b, c, from as int, to as int),
{
    let fi = from as i32;
    let ti = to as i32;
    let d: i32 = match c {
        Color::White => -1,
        Color::Black => 1,
    };
    let single = ti == fi + 8 * d && !(b.is_occupied(to as u64));
    let home = match c {
        Color::White => fi / 8 == 6,
        Color::Black => fi / 8 == 1,
    };
    let double = home && ti == fi + 16 * d && !(b.is_occupied((fi + 8 * d) as u64)) && !(
    b.is_occupied(to as u64));
    let diag = ti / 8 - fi / 8 == d && (ti % 8 - fi % 8 == 1 || fi % 8 - ti % 8 == 1);
    let enemy = match c {
        Color::White => Color::Black,
        Color::Black => Color::White,
    };
    let cap = diag && (match b.color_on(to as u64) {
        Some(x) => x == enemy,
        None => false,
    });
    let ep = diag && (match b.en_passant {
        Some(t) => t == to,
        None => false,
    }) && !(b.is_occupied(to as u64));
    single || double || cap || ep
}

/// Whether the castling rules allow `from -> to`; the executable mirror of
/// `castle_ok`.
fn castle_ok_on(b: &Board, c: Color, from: u8, to: u8) -> (r: bool)
    ensures
        r == crate::moves::castle_ok(*b, c, from as int, to as int),
{
    match c {
        Color::White => {
            let short = from == 60 && to == 62 && b.castle_rights.white_short && b.rooks.test(63)
                && b.white.test(63) && !(b.is_occupied(61)) && !(b.is_occupied(62)) && !(
            crate::attacks::is_attacked(b, Color::Black, 60)) && !(crate::attacks::is_attacked(
                b,
                Color::Black,
                61,
            )) && !(crate::attacks::is_attacked(b, Color::Black, 62));
            let long = from == 60 && to == 58 && b.castle_rights.white_long && b.rooks.test(56)
                && b.white.test(56) && !(b.is_occupied(57)) && !(b.is_occupied(58)) && !(
            b.is_occupied(59)) && !(crate::attacks::is_attacked(b, Color::Black, 60)) && !(
            crate::attacks::is_attacked(b, Color::Black, 59)) && !(crate::attacks::is_attacked(
                b,
                Color::Black,
                58,
            ));
            short || long
        },
        Color::Black => {
            let short = from == 4 && to == 6 && b.castle_rights.black_short && b.rooks.test(7)
                && b.black.test(7) && !(b.is_occupied(5)) && !(b.is_occupied(6)) && !(
            crate::attacks::is_attacked(b, Color::White, 4)) && !(crate::attacks::is_attacked(
                b,
                Color::White,
                5,
            )) && !(crate::attacks::is_attacked(b, Color::White, 6));
            let long = from == 4 && to == 2 && b.castle_rights.black_long && b.rooks.test(0)
                && b.black.test(0) && !(b.is_occupied(1)) && !(b.is_occupied(2)) && !(
            b.is_occupied(3)) && !(crate::attacks::is_attacked(b, Color::White, 4)) && !(
            crate::attacks::is_attacked(b, Color::White, 3)) && !(crate::attacks::is_attacked(
                b,
                Color::White,
                2,
            ));
            short || long
        },
    }
}

/// The kind tag a move of this pair must carry; the executable mirror of
/// `derive_kind`.
fn kind_of_pair(b: &Board, from: u8, to: u8) -> (r: MoveKind)
    requires
        from < 64,
        to < 64,
    ensures
        r == derive_kind(*b, from as int, to as int),
{
    let c = b.side_to_move;
    let enemy = match c {
        Color::White => Color::Black,
        Color::Black => Color::White,
    };
    let enemy_at_to = match b.color_on(to as u64) {
        Some(x) => x == enemy,
        None => false,
    };
    match b.kind_on(from as u64) {
        Some(Piece::Pawn) => {
            let double = match c {
                Color::White => to + 16 == from,
                Color::Black => from + 16 == to,
            };
            let last_rank = match c {
                Color::White => to < 8,
                Color::Black => to >= 56,
            };
            if double {
                MoveKind::DoublePawnPush
            } else if (match b.en_passant {
                Some(t) => t == to,
                None => false,
            }) && to % 8 != from % 8 && !(b.is_occupied(to as u64)) {
                MoveKind::EnPassantCapture
            } else if enemy_at_to {
                if last_rank {
                    MoveKind::PromotionCapture
                } else {
                    MoveKind::Capture
                }
            } else {
                if last_rank {
                    MoveKind::Promotion
                } else {
                    MoveKind::Quiet
                }
            }
        },
        Some(Piece::King) => {
            if (from == 60 && to == 62) || (from == 4 && to == 6) {
                MoveKind::CastleShort
            } else if (from == 60 && to == 58) || (from == 4 && to == 2) {
                MoveKind::CastleLong
            } else if enemy_at_to {
                MoveKind::Capture
            } else {
                MoveKind::Quiet
            }
        },
        Some(_) => {
            if enemy_at_to {
                MoveKind::Capture
            } else {
                MoveKind::Quiet
            }
        },
        None => MoveKind::Quiet,
    }
}

/// Whether `m` is pseudo-legal on `b`; the executable mirror of
/// `pseudo_legal`.
pub fn is_pseudo_legal(b: &Board, m: &Move) -> (r: bool)
    ensures
        r == pseudo_legal(*b, *m),
{
    if m.from >= 64 || m.to >= 64 || m.from == m.to {
        return false;
    }
    let c = b.side_to_move;
    let own_from = match b.color_on(m.from as u64) {
        Some(x) => x == c,
        None => false,
    };
    let own_to = match b.color_on(m.to as u64) {
        Some(x) => x == c,
        None => false,
    };
    if !own_from || own_to {
        return false;
    }
    let movement = match b.kind_on(m.from as u64) {
        Some(Piece::Pawn) => pawn_ok(b, c, m.from, m.to),
        Some(Piece::King) => crate::attacks::piece_attacks_on(b, c, Piece::King, m.from, m.to)
            || castle_ok_on(b, c, m.from, m.to),
        Some(k) => crate::attacks::piece_attacks_on(b, c, k, m.from, m.to),
        None => false,
    };
    if !movement {
        return false;
    }
    let tag_ok = m.kind == kind_of_pair(b, m.from, m.to);
    let last_rank = match c {
        Color::White => m.to < 8,
        Color::Black => m.to >= 56,
    };
    let is_pawn = match b.kind_on(m.from as u64) {
        Some(Piece::Pawn) => true,
        _ => false,
    };
    let field_ok = if is_pawn && last_rank {
        match m.promotion {
            Some(Piece::Knight) => true,
            Some(Piece::Bishop) => true,
            Some(Piece::Rook) => true,
            Some(Piece::Queen) => true,
            _ => false,
        }
    } else {
        match m.promotion {
            Some(_) => false,
            None => true,
        }
    };
    tag_ok && field_ok
}

/// Whether `m` is legal on `b`: pseudo-legal and not leaving the mover's
/// own king in check.
pub fn is_legal_move(b: &Board, m: &Move) -> (r: bool)
    ensures
        r == legal(*b, *m),
{
    if !(is_pseudo_legal(b, m)) {
        return false;
    }
    let nb = b.apply(m);
    !(crate::moves::is_in_check(&nb, b.side_to_move))
}

/// Appends `m` to `out` exactly when it is legal.
fn push_if_legal(out: &mut Vec<Move>, b: &Board, m: Move)
    ensures
        final(out)@ == old(out)@ + keep(*b, m),
{
    if is_legal_move(b, &m) {
        out.push(m);
    } else {
        proof {
            assert(out@ =~= out@ + keep(*b, m));
        }
    }
}

/// Generates every legal move of `b`, in canonical board order: origin
/// square, then destination square, then promotion piece Queen, Rook,
/// Bishop, Knight. An empty result means checkmate or stalemate, told apart
/// by whether the side to move is in check.
pub fn generate_legal_moves(b: &Board) -> (r: Vec<Move>)
    ensures
        r@ == spec_legal_moves(*b),
{
    let mut out: Vec<Move> = Vec::new();
    let mut p: usize = 0;
    while p < 4096
        invariant
            p <= 4096,
            out@ == moves_upto(*b, p as int),
        decreases 4096 - p,
    {
        let from = (p / 64) as u8;
        let to = (p % 64) as u8;
        let ghost prefix = out@;
        let kind = kind_of_pair(b, from, to);
        let promo = (match b.kind_on(from as u64) {
            Some(Piece::Pawn) => true,
            _ => false,
        }) && (match b.side_to_move {
            Color::White => to < 8,
            Color::Black => to >= 56,
        });
        assert(promo == promo_pair(*b, from as int, to as int));
        if promo {
            push_if_legal(&mut out, b, Move { from, to, promotion: Some(Piece::Queen), kind });
            push_if_legal(&mut out, b, Move { from, to, promotion: Some(Piece::Rook), kind });
            push_if_legal(&mut out, b, Move { from, to, promotion: Some(Piece::Bishop), kind });
            push_if_legal(&mut out, b, Move { from, to, promotion: Some(Piece::Knight), kind });
            proof {
                assert(out@ =~= prefix + pair_moves(*b, from as int, to as int));
            }
        } else {
            push_if_legal(&mut out, b, Move { from, to, promotion: None, kind });
            proof {
                assert(out@ =~= prefix + pair_moves(*b, from as int, to as int));
            }
        }
        proof {
            assert(moves_upto(*b, p as int + 1) == moves_upto(*b, p as int) + pair_moves(
                *b,
                p as int / 64,
                p as int % 64,
            ));
        }
        p = p + 1;
    }
    out
}

} // verus!
