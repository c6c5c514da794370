//! Attack computation: which squares a piece on a given square attacks,
//! ignoring piece color ownership of the target and legality.
//!
//! Non-sliding pieces (knight, king, pawn captures) attack by fixed offsets;
//! sliding pieces (bishop, rook, queen) cast rays that stop at and include
//! the first occupied square.

use vstd::prelude::*;

use crate::bitboard::has;
use crate::board::Board;
use crate::board::Color;
use crate::board::Piece;
use crate::board::occupied;

verus! {

/// The rank index of a square, 0 = rank 8 (top) through 7 = rank 1.
pub open spec fn rank_of(sq: int) -> int {
    sq / 8
}

/// The file index of a square, 0 = file a through 7 = file h.
pub open spec fn file_of(sq: int) -> int {
    sq % 8
}

/// The (rank, file) pair names a real square.
pub open spec fn on_board(r: int, f: int) -> bool {
    0 <= r < 8 && 0 <= f < 8
}

/// Absolute value.
pub open spec fn abs_i(a: int) -> int {
    if a >= 0 {
        a
    } else {
        -a
    }
}

/// The rank direction a pawn of color `c` moves in: White moves toward rank
/// 8 (decreasing rank index), Black toward rank 1 (increasing).
pub open spec fn pawn_dir(c: Color) -> int {
    match c {
        Color::White => -1,
        Color::Black => 1,
    }
}

/// A knight on `from` attacks `to`.
pub open spec fn knight_attacks(from: int, to: int) -> bool {
    let dr = abs_i(rank_of(to) - rank_of(from));
    let df = abs_i(file_of(to) - file_of(from));
    (dr == 1 && df == 2) || (dr == 2 && df == 1)
}

/// A king on `from` attacks `to`.
pub open spec fn king_attacks(from: int, to: int) -> bool {
    let dr = abs_i(rank_of(to) - rank_of(from));
    let df = abs_i(file_of(to) - file_of(from));
    dr <= 1 && df <= 1 && (dr != 0 || df != 0)
}

/// A pawn of color `c` on `from` attacks `to` (diagonal capture squares
/// only; pushes are not attacks).
pub open spec fn pawn_attacks(c: Color, from: int, to: int) -> bool {
    rank_of(to) - rank_of(from) == pawn_dir(c) && abs_i(file_of(to) - file_of(from)) == 1
}

/// Walking from (r, f) in direction (dr, df), the ray reaches `to`: it steps
/// square by square, succeeds when it hits `to`, and stops at the board edge
/// or at (and including) the first occupied square.
pub open spec fn ray_hits(b: Board, r: int, f: int, dr: int, df: int, to: int, fuel: nat) -> bool
    decreases fuel,
{
    if fuel == 0 {
        false
    } else {
        let r2 = r + dr;
        let f2 = f + df;
        if !on_board(r2, f2) {
            false
        } else if r2 * 8 + f2 == to {
            true
        } else if occupied(b, (r2 * 8 + f2) as u64) {
            false
        } else {
            ray_hits(b, r2, f2, dr, df, to, (fuel - 1) as nat)
        }
    }
}

/// A bishop on `from` attacks `to` given the occupancy of `b`.
pub open spec fn bishop_attacks(b: Board, from: int, to: int) -> bool {
    ||| ray_hits(b, rank_of(from), file_of(from), -1, -1, to, 7)
    ||| ray_hits(b, rank_of(from), file_of(from), -1, 1, to, 7)
    ||| ray_hits(b, rank_of(from), file_of(from), 1, -1, to, 7)
    ||| ray_hits(b, rank_of(from), file_of(from), 1, 1, to, 7)
}

/// A rook on `from` attacks `to` given the occupancy of `b`.
pub open spec fn rook_attacks(b: Board, from: int, to: int) -> bool {
    ||| ray_hits(b, rank_of(from), file_of(from), -1, 0, to, 7)
    ||| ray_hits(b, rank_of(from), file_of(from), 1, 0, to, 7)
    ||| ray_hits(b, rank_of(from), file_of(from), 0, -1, to, 7)
    ||| ray_hits(b, rank_of(from), file_of(from), 0, 1, to, 7)
}

/// A piece of kind `k` and color `c` on `from` attacks `to`, with the full
/// occupancy of `b` as blockers for the sliding kinds.
pub open spec fn piece_attacks(b: Board, c: Color, k: Piece, from: int, to: int) -> bool {
    match k {
        Piece::Pawn => pawn_attacks(c, from, to),
        Piece::Knight => knight_attacks(from, to),
        Piece::Bishop => bishop_attacks(b, from, to),
        Piece::Rook => rook_attacks(b, from, to),
        Piece::Queen => bishop_attacks(b, from, to) || rook_attacks(b, from, to),
        Piece::King => king_attacks(from, to),
    }
}

/// The piece on `from` (if any) belongs to `a` and attacks `sq`.
pub open spec fn attacks_from(b: Board, a: Color, from: int, sq: int) -> bool {
    match crate::board::kind_at(b, from as u64) {
        Some(k) => crate::board::color_at(b, from as u64) == Some(a) && piece_attacks(
            b,
            a,
            k,
            from,
            sq,
        ),
        None => false,
    }
}

/// Some piece of color `a` attacks `sq`.
pub open spec fn attacked(b: Board, a: Color, sq: int) -> bool {
    exists|from: int| 0 <= from < 64 && #[trigger] attacks_from(b, a, from, sq)
}

/// Walks one ray; the executable mirror of `ray_hits`.
fn ray_hits_exec(b: &Board, r: i32, f: i32, dr: i32, df: i32, to: u8, fuel: u8) -> (res: bool)
    requires
        -8 <= r <= 8,
        -8 <= f <= 8,
        -1 <= dr <= 1,
        -1 <= df <= 1,
    ensures
        res == ray_hits(*b, r as int, f as int, dr as int, df as int, to as int, fuel as nat),
    decreases fuel,
{
    if fuel == 0 {
        return false;
    }
    let r2 = r + dr;
    let f2 = f + df;
    if !(0 <= r2 && r2 < 8 && 0 <= f2 && f2 < 8) {
        return false;
    }
    let s = (r2 * 8 + f2) as u64;
    if s == to as u64 {
        return true;
    }
    if b.is_occupied(s) {
        return false;
    }
    ray_hits_exec(b, r2, f2, dr, df, to, fuel - 1)
}

/// Whether a piece of kind `k` and color `c` on `from` attacks `to`; the
/// executable mirror of `piece_attacks`.
pub fn piece_attacks_on(b: &Board, c: Color, k: Piece, from: u8, to: u8) -> (res: bool)
    requires
        from < 64,
        to < 64,
    ensures
        res == piece_attacks(*b, c, k, from as int, to as int),
{
    let fr: i32 = (from / 8) as i32;
    let ff: i32 = (from % 8) as i32;
    let tr: i32 = (to / 8) as i32;
    let tf: i32 = (to % 8) as i32;
    let dr: i32 = if tr >= fr {
        tr - fr
    } else {
        fr - tr
    };
    let df: i32 = if tf >= ff {
        tf - ff
    } else {
        ff - tf
    };
    match k {
        Piece::Pawn => {
            let dir: i32 = match c {
                Color::White => -1,
                Color::Black => 1,
            };
            tr - fr == dir && df == 1
        },
        Piece::Knight => (dr == 1 && df == 2) || (dr == 2 && df == 1),
        Piece::Bishop => bishop_attacks_on(b, fr, ff, to),
        Piece::Rook => rook_attacks_on(b, fr, ff, to),
        Piece::Queen => bishop_attacks_on(b, fr, ff, to) || rook_attacks_on(b, fr, ff, to),
        Piece::King => dr <= 1 && df <= 1 && (dr != 0 || df != 0),
    }
}

/// The four diagonal rays of a bishop.
fn bishop_attacks_on(b: &Board, fr: i32, ff: i32, to: u8) -> (res: bool)
    requires
        0 <= fr < 8,
        0 <= ff < 8,
    ensures
        res == ({
            ||| ray_hits(*b, fr as int, ff as int, -1, -1, to as int, 7)
            ||| ray_hits(*b, fr as int, ff as int, -1, 1, to as int, 7)
            ||| ray_hits(*b, fr as int, ff as int, 1, -1, to as int, 7)
            ||| ray_hits(*b, fr as int, ff as int, 1, 1, to as int, 7)
        }),
{
    ray_hits_exec(b, fr, ff, -1, -1, to, 7) || ray_hits_exec(b, fr, ff, -1, 1, to, 7)
        || ray_hits_exec(b, fr, ff, 1, -1, to, 7) || ray_hits_exec(b, fr, ff, 1, 1, to, 7)
}

/// The four orthogonal rays of a rook.
fn rook_attacks_on(b: &Board, fr: i32, ff: i32, to: u8) -> (res: bool)
    requires
        0 <= fr < 8,
        0 <= ff < 8,
    ensures
        res == ({
            ||| ray_hits(*b, fr as int, ff as int, -1, 0, to as int, 7)
            ||| ray_hits(*b, fr as int, ff as int, 1, 0, to as int, 7)
            ||| ray_hits(*b, fr as int, ff as int, 0, -1, to as int, 7)
            ||| ray_hits(*b, fr as int, ff as int, 0, 1, to as int, 7)
        }),
{
    ray_hits_exec(b, fr, ff, -1, 0, to, 7) || ray_hits_exec(b, fr, ff, 1, 0, to, 7)
        || ray_hits_exec(b, fr, ff, 0, -1, to, 7) || ray_hits_exec(b, fr, ff, 0, 1, to, 7)
}

/// Whether any piece of color `a` attacks `sq`; the executable mirror of
/// `attacked`.
pub fn is_attacked(b: &Board, a: Color, sq: u8) -> (res: bool)
    requires
        sq < 64,
    ensures
        res == attacked(*b, a, sq as int),
{
    let mut from: u8 = 0;
    while from < 64
        invariant
            from <= 64,
            sq < 64,
            forall|j: int| 0 <= j < from ==> !(#[trigger] attacks_from(*b, a, j, sq as int)),
        decreases 64 - from,
    {
        let attacks_here = match b.kind_on(from as u64) {
            Some(k) => {
                match b.color_on(from as u64) {
                    Some(owner) => owner == a && piece_attacks_on(b, a, k, from, sq),
                    None => false,
                }
            },
            None => false,
        };
        if attacks_here {
            assert(attacks_from(*b, a, from as int, sq as int));
            return true;
        }
        assert(!(attacks_from(*b, a, from as int, sq as int)));
        from = from + 1;
    }
    false
}

} // verus!
