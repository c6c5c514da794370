//! Laws of the move generator and applier, proved once and for all
//! positions: the generated list holds exactly the legal moves, castling is
//! never generated through an attacked square, and an en-passant capture
//! removes the captured pawn from its actual square.

use vstd::prelude::*;

use crate::attacks::attacked;
use crate::bitboard::has;
use crate::bitboard::lemma_with_sq;
use crate::bitboard::lemma_without_sq;
use crate::board::Board;
use crate::board::Piece;
use crate::board::color_bb;
use crate::board::opp;
use crate::moves::Move;
use crate::moves::MoveKind;
use crate::moves::derive_kind;
use crate::moves::ep_victim;
use crate::moves::legal;
use crate::moves::spec_apply;
use crate::movegen::keep;
use crate::movegen::mk_move;
use crate::movegen::moves_upto;
use crate::movegen::pair_moves;
use crate::movegen::promo_pair;
use crate::movegen::spec_legal_moves;
use crate::fen::FenError;
use crate::fen::castle_chars;
use crate::fen::clock_val;
use crate::fen::dec_chars;
use crate::fen::dec_of_char;
use crate::fen::digit_char;
use crate::fen::ep_chars;
use crate::fen::lemma_split_no_sep;
use crate::fen::lemma_split_peel;
use crate::fen::piece_char;
use crate::fen::place_contents;
use crate::fen::print_rank;
use crate::fen::print_ranks;
use crate::fen::rank_squares;
use crate::fen::ranks_cells;
use crate::fen::split_on;

verus! {

/// Everything kept is legal.
proof fn lemma_keep_sound(b: Board, m0: Move, m: Move)
    requires
        keep(b, m0).contains(m),
    ensures
        legal(b, m),
{
    if legal(b, m0) {
        assert(keep(b, m0) == seq![m0]);
        assert(m == m0);
    } else {
        assert(keep(b, m0).len() == 0);
    }
}

/// Every move kept for one (origin, destination) pair is legal.
proof fn lemma_pair_moves_sound(b: Board, from: int, to: int, m: Move)
    requires
        pair_moves(b, from, to).contains(m),
    ensures
        legal(b, m),
{
    let s = pair_moves(b, from, to);
    let i = choose|i: int| 0 <= i < s.len() && s[i] == m;
    if promo_pair(b, from, to) {
        let k = derive_kind(b, from, to);
        let s1 = keep(b, mk_move(from, to, Some(Piece::Queen), k));
        let s2 = keep(b, mk_move(from, to, Some(Piece::Rook), k));
        let s3 = keep(b, mk_move(from, to, Some(Piece::Bishop), k));
        let s4 = keep(b, mk_move(from, to, Some(Piece::Knight), k));
        let t12 = s1 + s2;
        let t123 = t12 + s3;
        assert(s == t123 + s4);
        if i < s1.len() {
            assert(s1[i] == m);
            lemma_keep_sound(b, mk_move(from, to, Some(Piece::Queen), k), m);
        } else if i < t12.len() {
            assert(s2[i - s1.len()] == m);
            lemma_keep_sound(b, mk_move(from, to, Some(Piece::Rook), k), m);
        } else if i < t123.len() {
            assert(s3[i - t12.len()] == m);
            lemma_keep_sound(b, mk_move(from, to, Some(Piece::Bishop), k), m);
        } else {
            assert(s4[i - t123.len()] == m);
            lemma_keep_sound(b, mk_move(from, to, Some(Piece::Knight), k), m);
        }
    } else {
        lemma_keep_sound(b, mk_move(from, to, None, derive_kind(b, from, to)), m);
    }
}

/// Every move in the enumeration prefix is legal.
proof fn lemma_moves_upto_sound(b: Board, n: int, m: Move)
    requires
        0 <= n <= 4096,
        moves_upto(b, n).contains(m),
    ensures
        legal(b, m),
    decreases n,
{
    let s = moves_upto(b, n);
    let i = choose|i: int| 0 <= i < s.len() && s[i] == m;
    let pre = moves_upto(b, n - 1);
    let pm = pair_moves(b, (n - 1) / 64, (n - 1) % 64);
    if i < pre.len() {
        assert(pre[i] == m);
        lemma_moves_upto_sound(b, n - 1, m);
    } else {
        assert(pm[i - pre.len()] == m);
        lemma_pair_moves_sound(b, (n - 1) / 64, (n - 1) % 64, m);
    }
}

/// Every legal move is kept for its own (origin, destination) pair.
proof fn lemma_pair_moves_complete(b: Board, m: Move)
    requires
        legal(b, m),
    ensures
        pair_moves(b, m.from as int, m.to as int).contains(m),
{
    let from = m.from as int;
    let to = m.to as int;
    let k = derive_kind(b, from, to);
    let s = pair_moves(b, from, to);
    if promo_pair(b, from, to) {
        let s1 = keep(b, mk_move(from, to, Some(Piece::Queen), k));
        let s2 = keep(b, mk_move(from, to, Some(Piece::Rook), k));
        let s3 = keep(b, mk_move(from, to, Some(Piece::Bishop), k));
        let s4 = keep(b, mk_move(from, to, Some(Piece::Knight), k));
        let t12 = s1 + s2;
        let t123 = t12 + s3;
        assert(s == t123 + s4);
        if m.promotion == Some(Piece::Queen) {
            assert(m == mk_move(from, to, Some(Piece::Queen), k));
            assert(s1 == seq![m]);
            assert(s[0] == m);
        } else if m.promotion == Some(Piece::Rook) {
            assert(m == mk_move(from, to, Some(Piece::Rook), k));
            assert(s2 == seq![m]);
            assert(s[t12.len() - 1] == m);
        } else if m.promotion == Some(Piece::Bishop) {
            assert(m == mk_move(from, to, Some(Piece::Bishop), k));
            assert(s3 == seq![m]);
            assert(s[t123.len() - 1] == m);
        } else {
            assert(m.promotion == Some(Piece::Knight));
            assert(m == mk_move(from, to, Some(Piece::Knight), k));
            assert(s4 == seq![m]);
            assert(s[s.len() - 1] == m);
        }
    } else {
        assert(m.promotion is None);
        assert(m == mk_move(from, to, None, k));
        assert(s == seq![m]);
        assert(s[0] == m);
    }
}

/// A move kept for pair `p` appears in every longer enumeration prefix.
proof fn lemma_upto_pair(b: Board, p: int, n: int, m: Move)
    requires
        0 <= p < n <= 4096,
        pair_moves(b, p / 64, p % 64).contains(m),
    ensures
        moves_upto(b, n).contains(m),
    decreases n,
{
    let pre = moves_upto(b, n - 1);
    if p == n - 1 {
        let pm = pair_moves(b, (n - 1) / 64, (n - 1) % 64);
        let i = choose|i: int| 0 <= i < pm.len() && pm[i] == m;
        assert(moves_upto(b, n)[pre.len() + i] == m);
    } else {
        lemma_upto_pair(b, p, n - 1, m);
        let i = choose|i: int| 0 <= i < pre.len() && pre[i] == m;
        assert(moves_upto(b, n)[i] == m);
    }
}

/// The generator is sound and complete: the move list of a position holds a
/// move exactly when the rules of chess allow it.
pub proof fn lemma_generated_iff_legal(b: Board, m: Move)
    ensures
        spec_legal_moves(b).contains(m) <==> legal(b, m),
{
    if spec_legal_moves(b).contains(m) {
        lemma_moves_upto_sound(b, 4096, m);
    }
    if legal(b, m) {
        lemma_pair_moves_complete(b, m);
        let p = m.from as int * 64 + m.to as int;
        assert(p / 64 == m.from as int && p % 64 == m.to as int) by (nonlinear_arith)
            requires
                0 <= m.from < 64,
                0 <= m.to < 64,
                p == m.from as int * 64 + m.to as int,
        ;
        lemma_upto_pair(b, p, 4096, m);
    }
}

/// One rank with a square count other than 8 spoils the whole placement.
proof fn lemma_ranks_cells_bad(ranks: Seq<Seq<char>>, i: int)
    requires
        0 <= i < ranks.len(),
        match crate::fen::rank_squares(ranks[i]) {
            Some(cells) => cells.len() != 8,
            None => false,
        },
    ensures
        crate::fen::ranks_cells(ranks) is Err,
    decreases ranks.len(),
{
    if i == ranks.len() - 1 {
        assert(ranks.last() == ranks[i]);
    } else {
        assert(ranks.drop_last()[i] == ranks[i]);
        lemma_ranks_cells_bad(ranks.drop_last(), i);
    }
}

/// A FEN string whose position field has a rank count other than 8, or any
/// rank describing a square count other than 8, is rejected.
pub proof fn lemma_bad_shape_rejected(s: Seq<char>)
    requires
        ({
            let fs = crate::fen::split_on(s, ' ');
            let ranks = crate::fen::split_on(fs[0], '/');
            &&& 4 <= fs.len() <= 6
            &&& {
                ||| ranks.len() != 8
                ||| exists|i: int|
                    0 <= i < ranks.len() && match #[trigger] crate::fen::rank_squares(ranks[i]) {
                        Some(cells) => cells.len() != 8,
                        None => false,
                    }
            }
        }),
    ensures
        crate::fen::spec_from_fen(s) is Err,
{
    let fs = crate::fen::split_on(s, ' ');
    let ranks = crate::fen::split_on(fs[0], '/');
    if ranks.len() != 8 {
    } else {
        let i = choose|i: int|
            0 <= i < ranks.len() && match #[trigger] crate::fen::rank_squares(ranks[i]) {
                Some(cells) => cells.len() != 8,
                None => false,
            };
        lemma_ranks_cells_bad(ranks, i);
    }
}

/// A generated castling move never crosses an attacked square: neither the
/// king's origin, nor the square it passes over, nor its destination is
/// attacked by the opponent, even when the castling right itself is intact.
pub proof fn lemma_no_castle_through_check(b: Board, m: Move)
    requires
        spec_legal_moves(b).contains(m),
        m.kind == MoveKind::CastleShort || m.kind == MoveKind::CastleLong,
    ensures
        !(attacked(b, opp(b.side_to_move), m.from as int)),
        !(attacked(b, opp(b.side_to_move), (m.from as int + m.to as int) / 2)),
        !(attacked(b, opp(b.side_to_move), m.to as int)),
{
    lemma_generated_iff_legal(b, m);
}

/// Applying an en-passant capture removes the captured pawn from its actual
/// square, one rank behind the target, never from the target square itself,
/// and moves the capturing side onto the target square.
pub proof fn lemma_en_passant_removes_victim(b: Board, m: Move)
    requires
        legal(b, m),
        m.kind == MoveKind::EnPassantCapture,
    ensures
        ({
            let c = b.side_to_move;
            let r = spec_apply(b, m);
            let v = ep_victim(c, m.to as int) as u64;
            &&& v != m.to as u64
            &&& v < 64
            &&& !(has(r.pawns.0, v))
            &&& !(has(color_bb(r, opp(c)), v))
            &&& has(color_bb(r, c), m.to as u64)
            &&& !(has(color_bb(r, c), m.from as u64))
        }),
{
    let c = b.side_to_move;
    let r = spec_apply(b, m);
    let from = m.from as u64;
    let to = m.to as u64;
    let v = ep_victim(c, m.to as int) as u64;
    lemma_with_sq(0, 0);
    assert(v != to && v != from && to != from && v < 64);
    let p0 = b.pawns.0;
    let p1 = crate::bitboard::without_sq(p0, from);
    let p2 = crate::bitboard::without_sq(p1, v);
    lemma_without_sq(p0, from);
    lemma_without_sq(p1, v);
    lemma_with_sq(p2, to);
    let w0 = color_bb(b, c);
    let w1 = crate::bitboard::without_sq(w0, from);
    let w2 = crate::bitboard::with_sq(w1, to);
    lemma_without_sq(w0, from);
    lemma_with_sq(w1, to);
    let e0 = color_bb(b, opp(c));
    let e1 = crate::bitboard::without_sq(e0, v);
    lemma_without_sq(e0, v);
    assert(color_bb(r, c) == w2);
    assert(color_bb(r, opp(c)) == e1);
    assert(!(has(r.pawns.0, v)));
}

/// Every character a decimal number prints is a digit.
proof fn lemma_dec_chars_digits(n: int)
    requires
        n >= 0,
    ensures
        dec_chars(n).len() >= 1,
        forall|i: int|
            0 <= i < dec_chars(n).len() ==> (#[trigger] dec_of_char(dec_chars(n)[i])) is Some,
    decreases n,
{
    if n >= 10 {
        lemma_dec_chars_digits(n / 10);
        assert forall|i: int|
            0 <= i < dec_chars(n).len() implies (#[trigger] dec_of_char(dec_chars(n)[i])) is Some by {
            if i < dec_chars(n / 10).len() {
                assert(dec_chars(n)[i] == dec_chars(n / 10)[i]);
            } else {
                assert(dec_chars(n)[i] == digit_char(n % 10));
            }
        }
    }
}

/// Parsing a printed decimal number yields the number back.
proof fn lemma_dec_round_trip(n: int)
    requires
        n >= 0,
    ensures
        clock_val(dec_chars(n)) == Some(n),
    decreases n,
{
    if n < 10 {
    } else {
        lemma_dec_round_trip(n / 10);
        lemma_dec_chars_digits(n / 10);
        let s = dec_chars(n);
        assert(s.drop_last() =~= dec_chars(n / 10));
        assert(s.last() == digit_char(n % 10));
        assert(s.len() > 1);
    }
}

/// Parsing a printed castling field yields the rights back.
proof fn lemma_castle_round_trip(cr: crate::board::CastleRights)
    ensures
        crate::fen::parse_castling(castle_chars(cr)) == Ok::<crate::board::CastleRights, FenError>(
            cr,
        ),
        forall|i: int| 0 <= i < castle_chars(cr).len() ==> castle_chars(cr)[i] != ' ',
{
    let s = castle_chars(cr);
    if !cr.white_short && !cr.white_long && !cr.black_short && !cr.black_long {
    } else {
        let s1: Seq<char> = if cr.white_short {
            seq!['K']
        } else {
            Seq::<char>::empty()
        };
        let s2: Seq<char> = if cr.white_long {
            seq!['Q']
        } else {
            Seq::<char>::empty()
        };
        let s3: Seq<char> = if cr.black_short {
            seq!['k']
        } else {
            Seq::<char>::empty()
        };
        let s4: Seq<char> = if cr.black_long {
            seq!['q']
        } else {
            Seq::<char>::empty()
        };
        assert(s == s1 + s2 + s3 + s4);
        assert(1 <= s.len() <= 4);
        assert forall|i: int| 0 <= i < s.len() implies (s[i] == 'K' || s[i] == 'Q' || s[i] == 'k'
            || s[i] == 'q') by {
            let t12 = s1 + s2;
            let t123 = t12 + s3;
            assert(s == t123 + s4);
            if i < s1.len() {
                assert(s[i] == 'K');
            } else if i < t12.len() {
                assert(s[i] == 'Q');
            } else if i < t123.len() {
                assert(s[i] == 'k');
            } else {
                assert(s[i] == 'q');
            }
        }
        assert(s.contains('K') == cr.white_short) by {
            if cr.white_short {
                assert(s[0] == 'K');
            } else if s.contains('K') {
                let i = choose|i: int| 0 <= i < s.len() && s[i] == 'K';
                let t12 = s1 + s2;
                let t123 = t12 + s3;
                assert(s == t123 + s4);
                assert(false);
            }
        }
        assert(s.contains('Q') == cr.white_long) by {
            if cr.white_long {
                assert(s[s1.len() as int] == 'Q');
            } else if s.contains('Q') {
                let i = choose|i: int| 0 <= i < s.len() && s[i] == 'Q';
                let t12 = s1 + s2;
                let t123 = t12 + s3;
                assert(s == t123 + s4);
                assert(false);
            }
        }
        assert(s.contains('k') == cr.black_short) by {
            if cr.black_short {
                assert(s[(s1 + s2).len() as int] == 'k');
            } else if s.contains('k') {
                let i = choose|i: int| 0 <= i < s.len() && s[i] == 'k';
                let t12 = s1 + s2;
                let t123 = t12 + s3;
                assert(s == t123 + s4);
                assert(false);
            }
        }
        assert(s.contains('q') == cr.black_long) by {
            if cr.black_long {
                assert(s[((s1 + s2) + s3).len() as int] == 'q');
            } else if s.contains('q') {
                let i = choose|i: int| 0 <= i < s.len() && s[i] == 'q';
                let t12 = s1 + s2;
                let t123 = t12 + s3;
                assert(s == t123 + s4);
                assert(false);
            }
        }
    }
}

/// Parsing a printed en-passant field yields the target back.
proof fn lemma_ep_round_trip(ep: Option<u8>)
    requires
        match ep {
            Some(t) => t < 64,
            None => true,
        },
    ensures
        crate::fen::parse_ep(ep_chars(ep)) == Ok::<Option<u8>, FenError>(ep),
        forall|i: int| 0 <= i < ep_chars(ep).len() ==> ep_chars(ep)[i] != ' ',
{
}

/// The contents of one square as the FEN printer sees it: a piece when the
/// square has both a kind and an owner, else empty.
pub open spec fn cell_at(b: Board, sq: int) -> Option<(crate::board::Color, Piece)> {
    match (crate::board::kind_at(b, sq as u64), crate::board::color_at(b, sq as u64)) {
        (Some(k), Some(c)) => Some((c, k)),
        _ => None,
    }
}

/// Two boards are semantically equal: the same contents on every square,
/// and the same side to move, rights, en-passant target and clocks.
pub open spec fn equivalent(a: Board, b: Board) -> bool {
    &&& forall|sq: int| 0 <= sq < 64 ==> #[trigger] cell_at(a, sq) == cell_at(b, sq)
    &&& a.side_to_move == b.side_to_move
    &&& a.castle_rights == b.castle_rights
    &&& a.en_passant == b.en_passant
    &&& a.halfmove_clock == b.halfmove_clock
    &&& a.fullmove_number == b.fullmove_number
}

/// The square contents of rank `r` from file `f` on.
pub open spec fn cells_row(b: Board, r: int, f: int) -> Seq<Option<(crate::board::Color, Piece)>>
    decreases 8 - f,
{
    if f >= 8 {
        Seq::<Option<(crate::board::Color, Piece)>>::empty()
    } else {
        seq![cell_at(b, r * 8 + f)] + cells_row(b, r, f + 1)
    }
}

/// The square contents of the first `n` ranks, concatenated.
pub open spec fn rows_cells(b: Board, n: int) -> Seq<Option<(crate::board::Color, Piece)>>
    decreases n,
{
    if n <= 0 {
        Seq::<Option<(crate::board::Color, Piece)>>::empty()
    } else {
        rows_cells(b, n - 1) + cells_row(b, n - 1, 0)
    }
}

proof fn lemma_cells_row_len(b: Board, r: int, f: int)
    requires
        0 <= f <= 8,
    ensures
        cells_row(b, r, f).len() == 8 - f,
        forall|j: int| 0 <= j < 8 - f ==> #[trigger] cells_row(b, r, f)[j] == cell_at(
            b,
            r * 8 + f + j,
        ),
    decreases 8 - f,
{
    if f < 8 {
        lemma_cells_row_len(b, r, f + 1);
    }
}

/// Parsing a printed rank yields the pending empties and the remaining
/// square contents; and the printed text holds no space and no slash.
proof fn lemma_rank_round_trip(b: Board, r: int, f: int, pending: int)
    requires
        0 <= r < 8,
        0 <= f <= 8,
        0 <= pending <= f,
    ensures
        rank_squares(print_rank(b, r, f, pending)) == Some(
            crate::fen::empties(pending) + cells_row(b, r, f),
        ),
        forall|i: int|
            0 <= i < print_rank(b, r, f, pending).len() ==> (#[trigger] print_rank(
                b,
                r,
                f,
                pending,
            )[i]) != ' ' && print_rank(b, r, f, pending)[i] != '/',
    decreases 8 - f,
{
    let s = print_rank(b, r, f, pending);
    if f >= 8 {
        if pending > 0 {
            assert(s == seq![digit_char(pending)]);
            assert(s.drop_first() =~= Seq::<char>::empty());
            assert(rank_squares(s.drop_first()) == Some(
                Seq::<Option<(crate::board::Color, Piece)>>::empty(),
            ));
            assert(crate::fen::run_of_char(digit_char(pending)) == Some(pending));
            assert(crate::fen::empties(pending) + Seq::<
                Option<(crate::board::Color, Piece)>,
            >::empty() =~= crate::fen::empties(pending) + cells_row(b, r, f));
        } else {
            assert(crate::fen::empties(0) + cells_row(b, r, f) =~= Seq::<
                Option<(crate::board::Color, Piece)>,
            >::empty());
        }
    } else {
        let sq = r * 8 + f;
        match (crate::board::kind_at(b, sq as u64), crate::board::color_at(b, sq as u64)) {
            (Some(k), Some(c)) => {
                lemma_rank_round_trip(b, r, f + 1, 0);
                let rest = print_rank(b, r, f + 1, 0);
                let parsed_rest = crate::fen::empties(0) + cells_row(b, r, f + 1);
                assert(parsed_rest =~= cells_row(b, r, f + 1));
                assert(crate::fen::piece_of_char(piece_char(c, k)) == Some((c, k)));
                let t1 = seq![piece_char(c, k)] + rest;
                assert(t1.drop_first() =~= rest);
                assert(t1[0] == piece_char(c, k));
                assert(rank_squares(t1) == Some(
                    seq![Some((c, k))] + cells_row(b, r, f + 1),
                ));
                assert(seq![Some((c, k))] + cells_row(b, r, f + 1) =~= cells_row(b, r, f));
                if pending > 0 {
                    assert(s =~= seq![digit_char(pending)] + t1);
                    let s2 = seq![digit_char(pending)] + t1;
                    assert(s2.drop_first() =~= t1);
                    assert(s2[0] == digit_char(pending));
                    assert(crate::fen::piece_of_char(digit_char(pending)) is None);
                    assert(crate::fen::run_of_char(digit_char(pending)) == Some(pending));
                    assert(rank_squares(s2) == Some(
                        crate::fen::empties(pending) + cells_row(b, r, f),
                    ));
                } else {
                    assert(s =~= t1);
                    assert(crate::fen::empties(0) + cells_row(b, r, f) =~= cells_row(b, r, f));
                }
                assert forall|i: int| 0 <= i < s.len() implies (#[trigger] s[i]) != ' ' && s[i]
                    != '/' by {
                    let pre_len: int = if pending > 0 {
                        1
                    } else {
                        0
                    };
                    if i < pre_len {
                        assert(s[i] == digit_char(pending));
                    } else if i == pre_len {
                        assert(s[i] == piece_char(c, k));
                    } else {
                        assert(s[i] == rest[i - pre_len - 1]);
                    }
                }
            },
            _ => {
                lemma_rank_round_trip(b, r, f + 1, pending + 1);
                assert(s == print_rank(b, r, f + 1, pending + 1));
                assert(cell_at(b, sq) is None);
                assert(crate::fen::empties(pending + 1) + cells_row(b, r, f + 1)
                    =~= crate::fen::empties(pending) + cells_row(b, r, f));
            },
        }
    }
}

/// The printed placement splits on `/` into the printed ranks, and holds no
/// space.
proof fn lemma_print_ranks_split(b: Board, r: int)
    requires
        0 <= r <= 7,
    ensures
        split_on(print_ranks(b, r), '/') == Seq::new(
            (8 - r) as nat,
            |i: int| print_rank(b, r + i, 0, 0),
        ),
        forall|i: int|
            0 <= i < print_ranks(b, r).len() ==> (#[trigger] print_ranks(b, r)[i]) != ' ',
    decreases 7 - r,
{
    if r == 7 {
        lemma_rank_round_trip(b, 7, 0, 0);
        lemma_split_no_sep(print_rank(b, 7, 0, 0), '/');
        assert(split_on(print_ranks(b, r), '/') =~~= Seq::new(
            1nat,
            |i: int| print_rank(b, r + i, 0, 0),
        ));
    } else {
        lemma_rank_round_trip(b, r, 0, 0);
        lemma_print_ranks_split(b, r + 1);
        lemma_split_peel(print_rank(b, r, 0, 0), '/', print_ranks(b, r + 1));
        assert(split_on(print_ranks(b, r), '/') =~~= Seq::new(
            (8 - r) as nat,
            |i: int| print_rank(b, r + i, 0, 0),
        ));
        assert forall|i: int| 0 <= i < print_ranks(b, r).len() implies (#[trigger] print_ranks(
            b,
            r,
        )[i]) != ' ' by {
            let head = print_rank(b, r, 0, 0);
            if i < head.len() {
                assert(print_ranks(b, r)[i] == head[i]);
            } else if i == head.len() {
                assert(print_ranks(b, r)[i] == '/');
            } else {
                assert(print_ranks(b, r)[i] == print_ranks(b, r + 1)[i - head.len() - 1]);
            }
        }
    }
}

/// Parsing the printed ranks yields the boards' square contents, rank by
/// rank.
proof fn lemma_ranks_cells_print(b: Board, j: int)
    requires
        0 <= j <= 8,
    ensures
        ranks_cells(Seq::new((8nat), |i: int| print_rank(b, i, 0, 0)).subrange(0, j)) == Ok::<
            Seq<Option<(crate::board::Color, Piece)>>,
            FenError,
        >(rows_cells(b, j)),
    decreases j,
{
    let ranks = Seq::new((8nat), |i: int| print_rank(b, i, 0, 0));
    if j == 0 {
        assert(ranks.subrange(0, 0) =~= Seq::<Seq<char>>::empty());
    } else {
        lemma_ranks_cells_print(b, j - 1);
        assert(ranks.subrange(0, j).drop_last() =~= ranks.subrange(0, j - 1));
        assert(ranks.subrange(0, j).last() == print_rank(b, j - 1, 0, 0));
        lemma_rank_round_trip(b, j - 1, 0, 0);
        lemma_cells_row_len(b, j - 1, 0);
        assert(crate::fen::empties(0) + cells_row(b, j - 1, 0) =~= cells_row(b, j - 1, 0));
    }
}

/// No bitboard of `b` holds square `j`.
pub open spec fn no_bits(b: Board, j: u64) -> bool {
    &&& !(has(b.pawns.0, j))
    &&& !(has(b.knights.0, j))
    &&& !(has(b.bishops.0, j))
    &&& !(has(b.rooks.0, j))
    &&& !(has(b.queens.0, j))
    &&& !(has(b.kings.0, j))
    &&& !(has(b.white.0, j))
    &&& !(has(b.black.0, j))
}

/// Placing one piece changes exactly its own square.
proof fn lemma_put_piece_cells(bd: Board, k: Piece, c: crate::board::Color, sq: u64)
    requires
        sq < 64,
    ensures
        ({
            let r = crate::moves::put_piece(bd, k, c, sq);
            &&& forall|j: int|
                0 <= j < 64 && j != sq ==> #[trigger] cell_at(r, j) == cell_at(bd, j)
            &&& forall|j: u64| j < 64 && j != sq ==> #[trigger] no_bits(r, j) == no_bits(bd, j)
            &&& (no_bits(bd, sq) ==> cell_at(r, sq as int) == Some((c, k)))
            &&& forall|j: u64|
                j < 64 && j != sq && #[trigger] crate::board::wf_at(bd, j) ==> crate::board::wf_at(
                    r,
                    j,
                )
            &&& (no_bits(bd, sq) ==> crate::board::wf_at(r, sq))
            &&& r.side_to_move == bd.side_to_move
            &&& r.castle_rights == bd.castle_rights
            &&& r.en_passant == bd.en_passant
            &&& r.halfmove_clock == bd.halfmove_clock
            &&& r.fullmove_number == bd.fullmove_number
        }),
{
    let r = crate::moves::put_piece(bd, k, c, sq);
    lemma_with_sq(crate::board::kind_bb(bd, k), sq);
    lemma_with_sq(crate::board::color_bb(bd, c), sq);
    assert(forall|k2: Piece|
        #[trigger] crate::board::kind_bb(r, k2) == if k2 == k {
            crate::bitboard::with_sq(crate::board::kind_bb(bd, k), sq)
        } else {
            crate::board::kind_bb(bd, k2)
        });
    assert(forall|c2: crate::board::Color|
        #[trigger] color_bb(r, c2) == if c2 == c {
            crate::bitboard::with_sq(color_bb(bd, c), sq)
        } else {
            color_bb(bd, c2)
        });
    assert(r.pawns.0 == crate::board::kind_bb(r, Piece::Pawn));
    assert(r.knights.0 == crate::board::kind_bb(r, Piece::Knight));
    assert(r.bishops.0 == crate::board::kind_bb(r, Piece::Bishop));
    assert(r.rooks.0 == crate::board::kind_bb(r, Piece::Rook));
    assert(r.queens.0 == crate::board::kind_bb(r, Piece::Queen));
    assert(r.kings.0 == crate::board::kind_bb(r, Piece::King));
    assert(r.white.0 == color_bb(r, crate::board::Color::White));
    assert(r.black.0 == color_bb(r, crate::board::Color::Black));
    assert forall|j: int| 0 <= j < 64 && j != sq implies #[trigger] cell_at(r, j) == cell_at(
        bd,
        j,
    ) by {
        assert(has(crate::bitboard::with_sq(crate::board::kind_bb(bd, k), sq), j as u64) == has(
            crate::board::kind_bb(bd, k),
            j as u64,
        ));
        assert(has(crate::bitboard::with_sq(color_bb(bd, c), sq), j as u64) == has(
            color_bb(bd, c),
            j as u64,
        ));
    }
    assert forall|j: u64| j < 64 && j != sq implies #[trigger] no_bits(r, j) == no_bits(
        bd,
        j,
    ) by {
        assert(has(crate::bitboard::with_sq(crate::board::kind_bb(bd, k), sq), j) == has(
            crate::board::kind_bb(bd, k),
            j,
        ));
        assert(has(crate::bitboard::with_sq(color_bb(bd, c), sq), j) == has(color_bb(bd, c), j));
    }
    if no_bits(bd, sq) {
        assert(has(crate::bitboard::with_sq(crate::board::kind_bb(bd, k), sq), sq));
        assert(has(crate::bitboard::with_sq(color_bb(bd, c), sq), sq));
        assert(cell_at(r, sq as int) == Some((c, k)));
        assert(crate::board::wf_at(r, sq));
    }
    assert forall|j: u64|
        j < 64 && j != sq && #[trigger] crate::board::wf_at(bd, j) implies crate::board::wf_at(
        r,
        j,
    ) by {
        assert(has(crate::bitboard::with_sq(crate::board::kind_bb(bd, k), sq), j) == has(
            crate::board::kind_bb(bd, k),
            j,
        ));
        assert(has(crate::bitboard::with_sq(color_bb(bd, c), sq), j) == has(color_bb(bd, c), j));
    }
}

/// Placing square contents on the empty board yields exactly those
/// contents, with no piece beyond them and the empty board's other fields.
proof fn lemma_place_contents_at(cells: Seq<Option<(crate::board::Color, Piece)>>)
    requires
        cells.len() <= 64,
    ensures
        ({
            let r = place_contents(cells);
            &&& forall|sq: int| 0 <= sq < cells.len() ==> #[trigger] cell_at(r, sq) == cells[sq]
            &&& forall|sq: u64| cells.len() <= sq < 64 ==> #[trigger] no_bits(r, sq)
            &&& forall|sq: u64| sq < 64 ==> #[trigger] crate::board::wf_at(r, sq)
            &&& r.side_to_move == crate::board::Color::White
            &&& r.castle_rights == crate::board::spec_empty_board().castle_rights
            &&& r.en_passant is None
            &&& r.halfmove_clock == 0
            &&& r.fullmove_number == 1
        }),
    decreases cells.len(),
{
    if cells.len() == 0 {
        crate::bitboard::lemma_has_zero();
    } else {
        lemma_place_contents_at(cells.drop_last());
        let prev = place_contents(cells.drop_last());
        let r = place_contents(cells);
        let sq = cells.len() - 1;
        match cells.last() {
            None => {
                assert(r == prev);
                assert(no_bits(prev, sq as u64));
                assert(cell_at(r, sq) is None);
            },
            Some((c, k)) => {
                lemma_put_piece_cells(prev, k, c, sq as u64);
                assert(no_bits(prev, sq as u64));
                assert(cell_at(r, sq) == Some((c, k)));
                assert forall|j: int| 0 <= j < cells.len() - 1 implies #[trigger] cell_at(r, j)
                    == cells[j] by {
                    assert(cell_at(prev, j) == cells.drop_last()[j]);
                    assert(cell_at(r, j) == cell_at(prev, j));
                }
                assert forall|j: u64| cells.len() <= j < 64 implies #[trigger] no_bits(r, j) by {
                    assert(no_bits(prev, j));
                    assert(no_bits(r, j) == no_bits(prev, j));
                }
                assert forall|j: u64| j < 64 implies #[trigger] crate::board::wf_at(r, j) by {
                    if j != sq {
                        assert(crate::board::wf_at(prev, j));
                    }
                }
            },
        }
    }
}

/// Indexing the concatenated rank contents reads the board square by
/// square.
proof fn lemma_rows_cells_at(b: Board, n: int, sq: int)
    requires
        0 <= sq < 8 * n,
        n <= 8,
    ensures
        rows_cells(b, n).len() == 8 * n,
        rows_cells(b, n)[sq] == cell_at(b, sq),
    decreases n,
{
    lemma_cells_row_len(b, n - 1, 0);
    if n > 1 {
        lemma_rows_cells_at(b, n - 1, if sq < 8 * (n - 1) {
            sq
        } else {
            0
        });
    }
    if sq >= 8 * (n - 1) {
        assert(rows_cells(b, n)[sq] == cells_row(b, n - 1, 0)[sq - 8 * (n - 1)]);
        assert(cells_row(b, n - 1, 0)[sq - 8 * (n - 1)] == cell_at(b, sq));
    }
}

/// The printed FEN splits on spaces into its six fields.
#[verifier::rlimit(100)]
proof fn lemma_to_fen_fields(b: Board)
    requires
        match b.en_passant {
            Some(t) => t < 64,
            None => true,
        },
    ensures
        split_on(crate::fen::spec_to_fen(b), ' ') == seq![
            print_ranks(b, 0),
            (match b.side_to_move {
                crate::board::Color::White => seq!['w'],
                crate::board::Color::Black => seq!['b'],
            }),
            castle_chars(b.castle_rights),
            ep_chars(b.en_passant),
            dec_chars(b.halfmove_clock as int),
            dec_chars(b.fullmove_number as int),
        ],
{
    let s = crate::fen::spec_to_fen(b);
    let f0 = print_ranks(b, 0);
    let f1: Seq<char> = match b.side_to_move {
        crate::board::Color::White => seq!['w'],
        crate::board::Color::Black => seq!['b'],
    };
    let f2 = castle_chars(b.castle_rights);
    let f3 = ep_chars(b.en_passant);
    let f4 = dec_chars(b.halfmove_clock as int);
    let f5 = dec_chars(b.fullmove_number as int);
    lemma_print_ranks_split(b, 0);
    lemma_castle_round_trip(b.castle_rights);
    lemma_ep_round_trip(b.en_passant);
    lemma_dec_chars_digits(b.halfmove_clock as int);
    lemma_dec_chars_digits(b.fullmove_number as int);
    assert forall|i: int| 0 <= i < f4.len() implies #[trigger] f4[i] != ' ' by {
        assert(dec_of_char(f4[i]) is Some);
    }
    assert forall|i: int| 0 <= i < f5.len() implies #[trigger] f5[i] != ' ' by {
        assert(dec_of_char(f5[i]) is Some);
    }
    let rest4 = f4 + seq![' '] + f5;
    let rest3 = f3 + seq![' '] + rest4;
    let rest2 = f2 + seq![' '] + rest3;
    let rest1 = f1 + seq![' '] + rest2;
    assert(s =~= f0 + seq![' '] + rest1);
    lemma_split_no_sep(f5, ' ');
    lemma_split_peel(f4, ' ', f5);
    assert(rest3 =~= f3 + seq![' '] + (f4 + seq![' '] + f5));
    lemma_split_peel(f3, ' ', f4 + seq![' '] + f5);
    assert(rest2 =~= f2 + seq![' '] + rest3);
    lemma_split_peel(f2, ' ', rest3);
    assert(rest1 =~= f1 + seq![' '] + rest2);
    lemma_split_peel(f1, ' ', rest2);
    lemma_split_peel(f0, ' ', rest1);
    assert(split_on(s, ' ') =~~= seq![f0, f1, f2, f3, f4, f5]);
}

/// A successful placement parse yields 8 squares per rank.
proof fn lemma_ranks_cells_len(ranks: Seq<Seq<char>>)
    requires
        ranks_cells(ranks) is Ok,
    ensures
        ranks_cells(ranks).unwrap().len() == 8 * ranks.len(),
    decreases ranks.len(),
{
    if ranks.len() > 0 {
        lemma_ranks_cells_len(ranks.drop_last());
    }
}

/// Every board a FEN string parses to is well formed: each square holds at
/// most one piece of one color, and the en-passant target is a real square.
pub proof fn lemma_from_fen_wf(s: Seq<char>)
    requires
        crate::fen::spec_from_fen(s) is Ok,
    ensures
        crate::board::wf(crate::fen::spec_from_fen(s).unwrap()),
{
    let fs = split_on(s, ' ');
    let ranks = split_on(fs[0], '/');
    let cells = ranks_cells(ranks).unwrap();
    lemma_ranks_cells_len(ranks);
    lemma_place_contents_at(cells);
    let b2 = crate::fen::spec_from_fen(s).unwrap();
    let b0 = place_contents(cells);
    assert forall|sq: u64| sq < 64 implies #[trigger] crate::board::wf_at(b2, sq) by {
        assert(crate::board::wf_at(b0, sq));
    }
}

/// Round trip: parsing the printed FEN of a well-formed board yields a
/// semantically equal board — the same placement, side to move, castling
/// rights, en-passant target and clocks.
#[verifier::rlimit(100)]
pub proof fn lemma_fen_round_trip(b: Board)
    requires
        crate::board::wf(b),
    ensures
        ({
            match crate::fen::spec_from_fen(crate::fen::spec_to_fen(b)) {
                Ok(b2) => equivalent(b2, b),
                Err(_) => false,
            }
        }),
{
    let s = crate::fen::spec_to_fen(b);
    let f0 = print_ranks(b, 0);
    let f1: Seq<char> = match b.side_to_move {
        crate::board::Color::White => seq!['w'],
        crate::board::Color::Black => seq!['b'],
    };
    let f2 = castle_chars(b.castle_rights);
    let f3 = ep_chars(b.en_passant);
    let f4 = dec_chars(b.halfmove_clock as int);
    let f5 = dec_chars(b.fullmove_number as int);
    lemma_to_fen_fields(b);
    lemma_print_ranks_split(b, 0);
    lemma_castle_round_trip(b.castle_rights);
    lemma_ep_round_trip(b.en_passant);
    lemma_dec_round_trip(b.halfmove_clock as int);
    lemma_dec_round_trip(b.fullmove_number as int);
    let fs = split_on(s, ' ');
    assert(fs.len() == 6);
    assert(fs[0] == f0 && fs[1] == f1 && fs[2] == f2 && fs[3] == f3 && fs[4] == f4 && fs[5] == f5);
    let ranks = split_on(f0, '/');
    assert(ranks =~~= Seq::new((8nat), |i: int| print_rank(b, i, 0, 0)));
    lemma_ranks_cells_print(b, 8);
    assert(Seq::new((8nat), |i: int| print_rank(b, i, 0, 0)).subrange(0, 8) =~= ranks);
    let cells = rows_cells(b, 8);
    assert(ranks_cells(ranks) == Ok::<Seq<Option<(crate::board::Color, Piece)>>, FenError>(cells));
    lemma_rows_cells_at(b, 8, 0);
    let b0 = place_contents(cells);
    lemma_place_contents_at(cells);
    assert(crate::fen::parse_side(f1) == Ok::<crate::board::Color, FenError>(b.side_to_move));
    assert(crate::fen::parse_clock(f4) == Ok::<u32, FenError>(b.halfmove_clock));
    assert(crate::fen::parse_clock(f5) == Ok::<u32, FenError>(b.fullmove_number));
    let b2 = crate::fen::spec_from_fen(s).unwrap();
    assert forall|sq: int| 0 <= sq < 64 implies #[trigger] cell_at(b2, sq) == cell_at(b, sq) by {
        lemma_rows_cells_at(b, 8, sq);
        assert(cell_at(b0, sq) == cells[sq]);
        assert(cell_at(b2, sq) == cell_at(b0, sq));
    }
}

} // verus!
