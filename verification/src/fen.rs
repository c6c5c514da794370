//! FEN import and export: bidirectional conversion between a board and the
//! six-field FEN text format (placement, side to move, castling rights,
//! en-passant target, halfmove clock, fullmove number; the two clocks are
//! optional and default to 0 and 1).

use vstd::prelude::*;

use crate::board::Board;
use crate::board::CastleRights;
use crate::board::Color;
use crate::board::Piece;
use crate::board::color_at;
use crate::board::kind_at;
use crate::moves::put_piece;
use vstd::string::StrSliceExecFns;
use vstd::string::StringExecFns;

verus! {

/// A typed FEN rejection, naming the offending field.
#[derive(Clone, Copy, PartialEq, Eq, Structural, Debug)]
pub enum FenError {
    /// Fewer than four or more than six space-separated fields.
    FieldCount,
    /// The placement field does not describe 8 ranks of exactly 8 squares.
    RankShape,
    /// A character in the placement field is no piece code and no digit.
    InvalidChar,
    /// The side-to-move field is neither `w` nor `b`.
    BadSide,
    /// The castling field is neither `-` nor a combination of `KQkq`.
    BadCastling,
    /// The en-passant field is neither `-` nor an algebraic square.
    BadEnPassant,
    /// A clock field is not a non-negative integer that fits the counter.
    BadClock,
}

/// Splits `s` at every occurrence of `sep`; n separators yield n + 1 parts.
pub open spec fn split_on(s: Seq<char>, sep: char) -> Seq<Seq<char>>
    decreases s.len(),
{
    if s.len() == 0 {
        seq![Seq::<char>::empty()]
    } else if s[0] == sep {
        seq![Seq::<char>::empty()] + split_on(s.drop_first(), sep)
    } else {
        let rest = split_on(s.drop_first(), sep);
        seq![seq![s[0]] + rest[0]] + rest.drop_first()
    }
}

/// Splitting a separator-free word yields just that word.
pub proof fn lemma_split_no_sep(w: Seq<char>, sep: char)
    requires
        forall|i: int| 0 <= i < w.len() ==> w[i] != sep,
    ensures
        split_on(w, sep) == seq![w],
    decreases w.len(),
{
    if w.len() == 0 {
        assert(split_on(w, sep) =~~= seq![w]);
    } else {
        lemma_split_no_sep(w.drop_first(), sep);
        assert(seq![w[0]] + w.drop_first() =~= w);
        assert(split_on(w, sep) =~~= seq![w]);
    }
}

/// Splitting `word sep rest` peels off the separator-free word.
pub proof fn lemma_split_peel(w: Seq<char>, sep: char, rest: Seq<char>)
    requires
        forall|i: int| 0 <= i < w.len() ==> w[i] != sep,
    ensures
        split_on(w + seq![sep] + rest, sep) == seq![w] + split_on(rest, sep),
    decreases w.len(),
{
    let s = w + seq![sep] + rest;
    if w.len() == 0 {
        assert(s[0] == sep);
        assert(s.drop_first() =~= rest);
        assert(w =~= Seq::<char>::empty());
        assert(split_on(s, sep) =~~= seq![w] + split_on(rest, sep));
    } else {
        assert(s[0] == w[0]);
        assert(s.drop_first() =~= w.drop_first() + seq![sep] + rest);
        lemma_split_peel(w.drop_first(), sep, rest);
        let rest2 = split_on(s.drop_first(), sep);
        assert(rest2 == seq![w.drop_first()] + split_on(rest, sep));
        assert(rest2[0] == w.drop_first());
        assert(seq![s[0]] + rest2[0] =~= w);
        assert(rest2.drop_first() =~= split_on(rest, sep));
        assert(split_on(s, sep) =~~= seq![w] + split_on(rest, sep));
    }
}

/// Splits a string at every occurrence of `sep`; the executable mirror of
/// `split_on`.
pub fn split_char<'a>(s: &'a str, sep: char) -> (r: Vec<&'a str>)
    ensures
        r@.map_values(|t: &'a str| t@) == split_on(s@, sep),
        forall|i: int| 0 <= i < r@.len() ==> (#[trigger] r@[i])@ == split_on(s@, sep)[i],
{
    let n = s.unicode_len();
    let mut out: Vec<&'a str> = Vec::new();
    let mut start: usize = 0;
    let mut i: usize = 0;
    proof {
        assert(s@.subrange(0, n as int) =~= s@);
    }
    while i < n
        invariant
            start <= i <= n,
            n == s@.len(),
            forall|j: int| start <= j < i ==> s@[j] != sep,
            split_on(s@, sep) == out@.map_values(|t: &'a str| t@) + split_on(
                s@.subrange(start as int, n as int),
                sep,
            ),
        decreases n - i,
    {
        if s.get_char(i) == sep {
            let w = s.substring_char(start, i);
            let ghost old_out = out@;
            out.push(w);
            proof {
                assert(s@.subrange(start as int, n as int) =~= w@ + seq![sep] + s@.subrange(
                    i + 1,
                    n as int,
                ));
                lemma_split_peel(w@, sep, s@.subrange(i + 1, n as int));
                assert(out@.map_values(|t: &'a str| t@) =~~= old_out.map_values(|t: &'a str| t@)
                    + seq![w@]);
                assert(out@.map_values(|t: &'a str| t@) + split_on(
                    s@.subrange(i + 1, n as int),
                    sep,
                ) =~~= old_out.map_values(|t: &'a str| t@) + (seq![w@] + split_on(
                    s@.subrange(i + 1, n as int),
                    sep,
                )));
            }
            start = i + 1;
        }
        i = i + 1;
    }
    let w = s.substring_char(start, n);
    let ghost old_out = out@;
    out.push(w);
    proof {
        assert(w@ =~= s@.subrange(start as int, n as int));
        lemma_split_no_sep(w@, sep);
        assert(out@.map_values(|t: &'a str| t@) =~~= old_out.map_values(|t: &'a str| t@) + seq![
            w@,
        ]);
        assert(out@.map_values(|t: &'a str| t@) =~~= split_on(s@, sep));
        assert forall|k: int| 0 <= k < out@.len() implies (#[trigger] out@[k])@ == split_on(
            s@,
            sep,
        )[k] by {
            assert(out@.map_values(|t: &'a str| t@)[k] == out@[k]@);
        }
    }
    out
}

/// The piece denoted by a FEN letter: uppercase is White, lowercase Black.
pub open spec fn piece_of_char(ch: char) -> Option<(Color, Piece)> {
    if ch == 'P' {
        Some((Color::White, Piece::Pawn))
    } else if ch == 'N' {
        Some((Color::White, Piece::Knight))
    } else if ch == 'B' {
        Some((Color::White, Piece::Bishop))
    } else if ch == 'R' {
        Some((Color::White, Piece::Rook))
    } else if ch == 'Q' {
        Some((Color::White, Piece::Queen))
    } else if ch == 'K' {
        Some((Color::White, Piece::King))
    } else if ch == 'p' {
        Some((Color::Black, Piece::Pawn))
    } else if ch == 'n' {
        Some((Color::Black, Piece::Knight))
    } else if ch == 'b' {
        Some((Color::Black, Piece::Bishop))
    } else if ch == 'r' {
        Some((Color::Black, Piece::Rook))
    } else if ch == 'q' {
        Some((Color::Black, Piece::Queen))
    } else if ch == 'k' {
        Some((Color::Black, Piece::King))
    } else {
        None
    }
}

/// The value of a rank-digit `1` through `8`.
pub open spec fn run_of_char(ch: char) -> Option<int> {
    if ch == '1' {
        Some(1)
    } else if ch == '2' {
        Some(2)
    } else if ch == '3' {
        Some(3)
    } else if ch == '4' {
        Some(4)
    } else if ch == '5' {
        Some(5)
    } else if ch == '6' {
        Some(6)
    } else if ch == '7' {
        Some(7)
    } else if ch == '8' {
        Some(8)
    } else {
        None
    }
}

/// `d` empty squares.
pub open spec fn empties(d: int) -> Seq<Option<(Color, Piece)>> {
    Seq::new(d as nat, |i: int| None)
}

/// The square contents a rank string describes, left to right: a letter is
/// one piece, a digit a run of empty squares; `None` when some character is
/// neither.
pub open spec fn rank_squares(r: Seq<char>) -> Option<Seq<Option<(Color, Piece)>>>
    decreases r.len(),
{
    if r.len() == 0 {
        Some(Seq::<Option<(Color, Piece)>>::empty())
    } else {
        match rank_squares(r.drop_first()) {
            None => None,
            Some(t) => match piece_of_char(r[0]) {
                Some(cp) => Some(seq![Some(cp)] + t),
                None => match run_of_char(r[0]) {
                    Some(d) => Some(empties(d) + t),
                    None => None,
                },
            },
        }
    }
}

/// The concatenated square contents of a sequence of ranks: each rank must
/// parse and describe exactly 8 squares; a malformed character is reported
/// over a wrong square count, earliest rank first.
pub open spec fn ranks_cells(ranks: Seq<Seq<char>>) -> Result<
    Seq<Option<(Color, Piece)>>,
    FenError,
>
    decreases ranks.len(),
{
    if ranks.len() == 0 {
        Ok(Seq::<Option<(Color, Piece)>>::empty())
    } else {
        match ranks_cells(ranks.drop_last()) {
            Err(e) => Err(e),
            Ok(pre) => match rank_squares(ranks.last()) {
                None => Err(FenError::InvalidChar),
                Some(cells) => if cells.len() == 8 {
                    Ok(pre + cells)
                } else {
                    Err(FenError::RankShape)
                },
            },
        }
    }
}

/// A failing rank prefix decides the whole placement parse.
pub proof fn lemma_ranks_cells_err(ranks: Seq<Seq<char>>, j: int, e: FenError)
    requires
        0 <= j <= ranks.len(),
        ranks_cells(ranks.subrange(0, j)) == Err::<Seq<Option<(Color, Piece)>>, FenError>(e),
    ensures
        ranks_cells(ranks) == Err::<Seq<Option<(Color, Piece)>>, FenError>(e),
    decreases ranks.len() - j,
{
    if j == ranks.len() {
        assert(ranks.subrange(0, j) =~= ranks);
    } else {
        let next = ranks.subrange(0, j + 1);
        assert(next.drop_last() =~= ranks.subrange(0, j));
        lemma_ranks_cells_err(ranks, j + 1, e);
    }
}

/// The board whose squares 0 up to `cells.len()` hold `cells`, built on the
/// empty board.
pub open spec fn place_contents(cells: Seq<Option<(Color, Piece)>>) -> Board
    decreases cells.len(),
{
    if cells.len() == 0 {
        crate::board::spec_empty_board()
    } else {
        let prev = place_contents(cells.drop_last());
        match cells.last() {
            None => prev,
            Some((c, k)) => put_piece(prev, k, c, (cells.len() - 1) as u64),
        }
    }
}

/// The castling rights a castling field describes.
pub open spec fn parse_castling(f: Seq<char>) -> Result<CastleRights, FenError> {
    if f.len() == 1 && f[0] == '-' {
        Ok(
            CastleRights {
                white_short: false,
                white_long: false,
                black_short: false,
                black_long: false,
            },
        )
    } else if 1 <= f.len() <= 4 && (forall|i: int|
        0 <= i < f.len() ==> (f[i] == 'K' || f[i] == 'Q' || f[i] == 'k' || f[i] == 'q')) {
        Ok(
            CastleRights {
                white_short: f.contains('K'),
                white_long: f.contains('Q'),
                black_short: f.contains('k'),
                black_long: f.contains('q'),
            },
        )
    } else {
        Err(FenError::BadCastling)
    }
}

/// The file index of an algebraic file letter `a` through `h`.
pub open spec fn file_of_char(ch: char) -> Option<int> {
    if ch == 'a' {
        Some(0)
    } else if ch == 'b' {
        Some(1)
    } else if ch == 'c' {
        Some(2)
    } else if ch == 'd' {
        Some(3)
    } else if ch == 'e' {
        Some(4)
    } else if ch == 'f' {
        Some(5)
    } else if ch == 'g' {
        Some(6)
    } else if ch == 'h' {
        Some(7)
    } else {
        None
    }
}

/// The en-passant target an en-passant field describes: `-` or an algebraic
/// square such as `e3` (rank 8 is squares 0 through 7).
pub open spec fn parse_ep(f: Seq<char>) -> Result<Option<u8>, FenError> {
    if f.len() == 1 && f[0] == '-' {
        Ok(None)
    } else if f.len() == 2 {
        match (file_of_char(f[0]), run_of_char(f[1])) {
            (Some(file), Some(d)) => Ok(Some(((8 - d) * 8 + file) as u8)),
            _ => Err(FenError::BadEnPassant),
        }
    } else {
        Err(FenError::BadEnPassant)
    }
}

/// The value of a decimal digit.
pub open spec fn dec_of_char(ch: char) -> Option<int> {
    if ch == '0' {
        Some(0)
    } else if ch == '9' {
        Some(9)
    } else {
        run_of_char(ch)
    }
}

/// The value of a non-empty decimal digit string, or `None` when some
/// character is no digit.
pub open spec fn clock_val(f: Seq<char>) -> Option<int>
    decreases f.len(),
{
    if f.len() == 0 {
        None
    } else {
        let pre = if f.len() == 1 {
            Some(0)
        } else {
            clock_val(f.drop_last())
        };
        match (pre, dec_of_char(f.last())) {
            (Some(v), Some(d)) => Some(10 * v + d),
            _ => None,
        }
    }
}

/// A longer digit string never has a smaller value.
pub proof fn lemma_clock_val_grows(f: Seq<char>, j: int)
    requires
        1 <= j <= f.len(),
        clock_val(f) is Some,
    ensures
        clock_val(f.subrange(0, j)) is Some,
        0 <= clock_val(f.subrange(0, j)).unwrap() <= clock_val(f).unwrap(),
    decreases f.len(),
{
    if j == f.len() {
        assert(f.subrange(0, j) =~= f);
        if f.len() > 1 {
            lemma_clock_val_grows(f.drop_last(), f.len() - 1);
            assert(f.drop_last().subrange(0, f.len() - 1) =~= f.drop_last());
        }
    } else {
        assert(f.len() >= 2);
        assert(clock_val(f.drop_last()) is Some);
        lemma_clock_val_grows(f.drop_last(), j);
        lemma_clock_val_grows(f.drop_last(), f.len() - 1);
        assert(f.drop_last().subrange(0, f.len() - 1) =~= f.drop_last());
        assert(f.drop_last().subrange(0, j) =~= f.subrange(0, j));
    }
}

/// The clock a clock field describes; values beyond the 32-bit counter are
/// rejected as malformed.
pub open spec fn parse_clock(f: Seq<char>) -> Result<u32, FenError> {
    match clock_val(f) {
        Some(v) => if v <= 0xffff_ffff {
            Ok(v as u32)
        } else {
            Err(FenError::BadClock)
        },
        None => Err(FenError::BadClock),
    }
}

/// The board a FEN string describes: six single-space-separated fields, of
/// which the last two default to halfmove 0 and fullmove 1 when absent.
pub open spec fn spec_from_fen(s: Seq<char>) -> Result<Board, FenError> {
    let fs = split_on(s, ' ');
    if fs.len() < 4 || fs.len() > 6 {
        Err(FenError::FieldCount)
    } else {
        let ranks = split_on(fs[0], '/');
        if ranks.len() != 8 {
            Err(FenError::RankShape)
        } else {
            match ranks_cells(ranks) {
                Err(e) => Err(e),
                Ok(cells) => {
                    let b0 = place_contents(cells);
                    match parse_side(fs[1]) {
                        Err(e) => Err(e),
                        Ok(c) => match parse_castling(fs[2]) {
                            Err(e) => Err(e),
                            Ok(cr) => match parse_ep(fs[3]) {
                                Err(e) => Err(e),
                                Ok(ep) => match (if fs.len() >= 5 {
                                    parse_clock(fs[4])
                                } else {
                                    Ok(0u32)
                                }) {
                                    Err(e) => Err(e),
                                    Ok(half) => match (if fs.len() >= 6 {
                                        parse_clock(fs[5])
                                    } else {
                                        Ok(1u32)
                                    }) {
                                        Err(e) => Err(e),
                                        Ok(full) => Ok(
                                            Board {
                                                side_to_move: c,
                                                castle_rights: cr,
                                                en_passant: ep,
                                                halfmove_clock: half,
                                                fullmove_number: full,
                                                ..b0
                                            },
                                        ),
                                    },
                                },
                            },
                        },
                    }
                },
            }
        }
    }
}

/// The side a side-to-move field describes.
pub open spec fn parse_side(f: Seq<char>) -> Result<Color, FenError> {
    if f.len() == 1 && f[0] == 'w' {
        Ok(Color::White)
    } else if f.len() == 1 && f[0] == 'b' {
        Ok(Color::Black)
    } else {
        Err(FenError::BadSide)
    }
}

/// The FEN letter of a piece: uppercase for White, lowercase for Black.
pub open spec fn piece_char(c: Color, k: Piece) -> char {
    match (c, k) {
        (Color::White, Piece::Pawn) => 'P',
        (Color::White, Piece::Knight) => 'N',
        (Color::White, Piece::Bishop) => 'B',
        (Color::White, Piece::Rook) => 'R',
        (Color::White, Piece::Queen) => 'Q',
        (Color::White, Piece::King) => 'K',
        (Color::Black, Piece::Pawn) => 'p',
        (Color::Black, Piece::Knight) => 'n',
        (Color::Black, Piece::Bishop) => 'b',
        (Color::Black, Piece::Rook) => 'r',
        (Color::Black, Piece::Queen) => 'q',
        (Color::Black, Piece::King) => 'k',
    }
}

/// The character of a decimal digit.
pub open spec fn digit_char(d: int) -> char {
    if d == 0 {
        '0'
    } else if d == 1 {
        '1'
    } else if d == 2 {
        '2'
    } else if d == 3 {
        '3'
    } else if d == 4 {
        '4'
    } else if d == 5 {
        '5'
    } else if d == 6 {
        '6'
    } else if d == 7 {
        '7'
    } else if d == 8 {
        '8'
    } else {
        '9'
    }
}

/// The letter of a file index.
pub open spec fn file_char(f: int) -> char {
    if f == 0 {
        'a'
    } else if f == 1 {
        'b'
    } else if f == 2 {
        'c'
    } else if f == 3 {
        'd'
    } else if f == 4 {
        'e'
    } else if f == 5 {
        'f'
    } else if f == 6 {
        'g'
    } else {
        'h'
    }
}

/// The FEN text of one rank from file `f` on, with `pending` empty squares
/// not yet flushed as a digit: pieces print their letter, runs of empty
/// squares print their length.
pub open spec fn print_rank(b: Board, r: int, f: int, pending: int) -> Seq<char>
    decreases 8 - f,
{
    if f >= 8 {
        if pending > 0 {
            seq![digit_char(pending)]
        } else {
            Seq::<char>::empty()
        }
    } else {
        let sq = (r * 8 + f) as u64;
        match (kind_at(b, sq), color_at(b, sq)) {
            (Some(k), Some(c)) => (if pending > 0 {
                seq![digit_char(pending)]
            } else {
                Seq::<char>::empty()
            }) + seq![piece_char(c, k)] + print_rank(b, r, f + 1, 0),
            _ => print_rank(b, r, f + 1, pending + 1),
        }
    }
}

/// The placement field: the eight ranks from the top, separated by `/`.
pub open spec fn print_ranks(b: Board, r: int) -> Seq<char>
    decreases 8 - r,
{
    if r >= 7 {
        print_rank(b, 7, 0, 0)
    } else {
        print_rank(b, r, 0, 0) + seq!['/'] + print_ranks(b, r + 1)
    }
}

/// The castling field: the letters of the intact rights, or `-`.
pub open spec fn castle_chars(cr: CastleRights) -> Seq<char> {
    if !cr.white_short && !cr.white_long && !cr.black_short && !cr.black_long {
        seq!['-']
    } else {
        (if cr.white_short {
            seq!['K']
        } else {
            Seq::<char>::empty()
        }) + (if cr.white_long {
            seq!['Q']
        } else {
            Seq::<char>::empty()
        }) + (if cr.black_short {
            seq!['k']
        } else {
            Seq::<char>::empty()
        }) + (if cr.black_long {
            seq!['q']
        } else {
            Seq::<char>::empty()
        })
    }
}

/// The en-passant field: the algebraic target square, or `-`.
pub open spec fn ep_chars(ep: Option<u8>) -> Seq<char> {
    match ep {
        None => seq!['-'],
        Some(t) => seq![file_char((t % 8) as int), digit_char(8 - (t / 8) as int)],
    }
}

/// The decimal digits of a non-negative number.
pub open spec fn dec_chars(n: int) -> Seq<char>
    decreases n,
{
    if n < 0 {
        Seq::<char>::empty()
    } else if n < 10 {
        seq![digit_char(n)]
    } else {
        dec_chars(n / 10) + seq![digit_char(n % 10)]
    }
}

/// The FEN text of a board: the six fields separated by single spaces.
pub open spec fn spec_to_fen(b: Board) -> Seq<char> {
    print_ranks(b, 0) + seq![' '] + (match b.side_to_move {
        Color::White => seq!['w'],
        Color::Black => seq!['b'],
    }) + seq![' '] + castle_chars(b.castle_rights) + seq![' '] + ep_chars(b.en_passant) + seq![' ']
        + dec_chars(b.halfmove_clock as int) + seq![' '] + dec_chars(b.fullmove_number as int)
}

/// The piece a FEN letter denotes; the executable mirror of
/// `piece_of_char`.
fn piece_of_char_on(ch: char) -> (r: Option<(Color, Piece)>)
    ensures
        r == piece_of_char(ch),
{
    if ch == 'P' {
        Some((Color::White, Piece::Pawn))
    } else if ch == 'N' {
        Some((Color::White, Piece::Knight))
    } else if ch == 'B' {
        Some((Color::White, Piece::Bishop))
    } else if ch == 'R' {
        Some((Color::White, Piece::Rook))
    } else if ch == 'Q' {
        Some((Color::White, Piece::Queen))
    } else if ch == 'K' {
        Some((Color::White, Piece::King))
    } else if ch == 'p' {
        Some((Color::Black, Piece::Pawn))
    } else if ch == 'n' {
        Some((Color::Black, Piece::Knight))
    } else if ch == 'b' {
        Some((Color::Black, Piece::Bishop))
    } else if ch == 'r' {
        Some((Color::Black, Piece::Rook))
    } else if ch == 'q' {
        Some((Color::Black, Piece::Queen))
    } else if ch == 'k' {
        Some((Color::Black, Piece::King))
    } else {
        None
    }
}

/// The value of a rank digit; the executable mirror of `run_of_char`.
fn run_of_char_on(ch: char) -> (r: Option<u8>)
    ensures
        match r {
            Some(d) => run_of_char(ch) == Some(d as int) && 1 <= d <= 8,
            None => run_of_char(ch) is None,
        },
{
    if ch == '1' {
        Some(1)
    } else if ch == '2' {
        Some(2)
    } else if ch == '3' {
        Some(3)
    } else if ch == '4' {
        Some(4)
    } else if ch == '5' {
        Some(5)
    } else if ch == '6' {
        Some(6)
    } else if ch == '7' {
        Some(7)
    } else if ch == '8' {
        Some(8)
    } else {
        None
    }
}

/// The value of a decimal digit; the executable mirror of `dec_of_char`.
fn dec_of_char_on(ch: char) -> (r: Option<u8>)
    ensures
        match r {
            Some(d) => dec_of_char(ch) == Some(d as int) && d <= 9,
            None => dec_of_char(ch) is None,
        },
{
    if ch == '0' {
        Some(0)
    } else if ch == '9' {
        Some(9)
    } else {
        run_of_char_on(ch)
    }
}

/// The file index of a file letter; the executable mirror of
/// `file_of_char`.
fn file_of_char_on(ch: char) -> (r: Option<u8>)
    ensures
        match r {
            Some(d) => file_of_char(ch) == Some(d as int) && d <= 7,
            None => file_of_char(ch) is None,
        },
{
    if ch == 'a' {
        Some(0)
    } else if ch == 'b' {
        Some(1)
    } else if ch == 'c' {
        Some(2)
    } else if ch == 'd' {
        Some(3)
    } else if ch == 'e' {
        Some(4)
    } else if ch == 'f' {
        Some(5)
    } else if ch == 'g' {
        Some(6)
    } else if ch == 'h' {
        Some(7)
    } else {
        None
    }
}

/// Parses one rank string into its 0 to 8 (or more, when malformed) square
/// contents; the executable mirror of `rank_squares`.
fn rank_cells_on(rank: &str) -> (r: Option<Vec<Option<(Color, Piece)>>>)
    ensures
        match r {
            Some(v) => rank_squares(rank@) == Some(v@),
            None => rank_squares(rank@) is None,
        },
{
    let n = rank.unicode_len();
    let mut v: Vec<Option<(Color, Piece)>> = Vec::new();
    let mut i: usize = 0;
    proof {
        assert(rank@.subrange(0, n as int) =~= rank@);
    }
    while i < n
        invariant
            i <= n,
            n == rank@.len(),
            match rank_squares(rank@.subrange(i as int, n as int)) {
                Some(t) => rank_squares(rank@) == Some(v@ + t),
                None => rank_squares(rank@) is None,
            },
        decreases n - i,
    {
        let ch = rank.get_char(i);
        let ghost suffix = rank@.subrange(i as int, n as int);
        proof {
            assert(suffix.drop_first() =~= rank@.subrange(i as int + 1, n as int));
            assert(suffix[0] == rank@[i as int]);
        }
        match piece_of_char_on(ch) {
            Some(cp) => {
                let ghost oldv = v@;
                v.push(Some(cp));
                proof {
                    if rank_squares(suffix.drop_first()) is Some {
                        let t2 = rank_squares(suffix.drop_first()).unwrap();
                        assert(v@ + t2 =~= oldv + (seq![Some(cp)] + t2));
                    }
                }
            },
            None => {
                match run_of_char_on(ch) {
                    Some(d) => {
                        let ghost oldv = v@;
                        let mut j: u8 = 0;
                        while j < d
                            invariant
                                j <= d,
                                v@ =~= oldv + empties(j as int),
                            decreases d - j,
                        {
                            v.push(None);
                            proof {
                                assert(v@ =~= oldv + empties(j as int + 1));
                            }
                            j = j + 1;
                        }
                        proof {
                            if rank_squares(suffix.drop_first()) is Some {
                                let t2 = rank_squares(suffix.drop_first()).unwrap();
                                assert(v@ + t2 =~= oldv + (empties(d as int) + t2));
                            }
                        }
                    },
                    None => {
                        return None;
                    },
                }
            },
        }
        i = i + 1;
    }
    proof {
        assert(rank@.subrange(n as int, n as int) =~= Seq::<char>::empty());
        assert(v@ + Seq::<Option<(Color, Piece)>>::empty() =~= v@);
    }
    Some(v)
}

/// The side a side-to-move field describes; the executable mirror of
/// `parse_side`.
fn parse_side_on(f: &str) -> (r: Result<Color, FenError>)
    ensures
        r == parse_side(f@),
{
    if f.unicode_len() == 1 {
        let ch = f.get_char(0);
        if ch == 'w' {
            Ok(Color::White)
        } else if ch == 'b' {
            Ok(Color::Black)
        } else {
            Err(FenError::BadSide)
        }
    } else {
        Err(FenError::BadSide)
    }
}

/// The rights a castling field describes; the executable mirror of
/// `parse_castling`.
fn parse_castling_on(f: &str) -> (r: Result<CastleRights, FenError>)
    ensures
        r == parse_castling(f@),
{
    let n = f.unicode_len();
    if n == 1 && f.get_char(0) == '-' {
        return Ok(
            CastleRights {
                white_short: false,
                white_long: false,
                black_short: false,
                black_long: false,
            },
        );
    }
    if n < 1 || n > 4 {
        return Err(FenError::BadCastling);
    }
    let mut ws = false;
    let mut wl = false;
    let mut bs = false;
    let mut bl = false;
    let mut i: usize = 0;
    while i < n
        invariant
            i <= n,
            n == f@.len(),
            1 <= n <= 4,
            !(n == 1 && f@[0] == '-'),
            forall|j: int|
                0 <= j < i ==> (f@[j] == 'K' || f@[j] == 'Q' || f@[j] == 'k' || f@[j] == 'q'),
            ws == exists|j: int| 0 <= j < i && f@[j] == 'K',
            wl == exists|j: int| 0 <= j < i && f@[j] == 'Q',
            bs == exists|j: int| 0 <= j < i && f@[j] == 'k',
            bl == exists|j: int| 0 <= j < i && f@[j] == 'q',
        decreases n - i,
    {
        let ch = f.get_char(i);
        if ch == 'K' {
            ws = true;
        } else if ch == 'Q' {
            wl = true;
        } else if ch == 'k' {
            bs = true;
        } else if ch == 'q' {
            bl = true;
        } else {
            return Err(FenError::BadCastling);
        }
        i = i + 1;
    }
    proof {
        assert(n == f@.len());
        if ws {
            let j = choose|j: int| 0 <= j < n && f@[j] == 'K';
            assert(f@[j] == 'K');
            assert(f@.contains('K'));
        }
        if wl {
            let j = choose|j: int| 0 <= j < n && f@[j] == 'Q';
            assert(f@[j] == 'Q');
            assert(f@.contains('Q'));
        }
        if bs {
            let j = choose|j: int| 0 <= j < n && f@[j] == 'k';
            assert(f@[j] == 'k');
            assert(f@.contains('k'));
        }
        if bl {
            let j = choose|j: int| 0 <= j < n && f@[j] == 'q';
            assert(f@[j] == 'q');
            assert(f@.contains('q'));
        }
        assert(ws == f@.contains('K'));
        assert(wl == f@.contains('Q'));
        assert(bs == f@.contains('k'));
        assert(bl == f@.contains('q'));
    }
    Ok(CastleRights { white_short: ws, white_long: wl, black_short: bs, black_long: bl })
}

/// The target an en-passant field describes; the executable mirror of
/// `parse_ep`.
fn parse_ep_on(f: &str) -> (r: Result<Option<u8>, FenError>)
    ensures
        r == parse_ep(f@),
{
    let n = f.unicode_len();
    if n == 1 && f.get_char(0) == '-' {
        return Ok(None);
    }
    if n != 2 {
        return Err(FenError::BadEnPassant);
    }
    let file = match file_of_char_on(f.get_char(0)) {
        Some(x) => x,
        None => {
            return Err(FenError::BadEnPassant);
        },
    };
    let d = match run_of_char_on(f.get_char(1)) {
        Some(x) => x,
        None => {
            return Err(FenError::BadEnPassant);
        },
    };
    Ok(Some((8 - d) * 8 + file))
}

/// Every character of a string with a value is a digit.
proof fn lemma_clock_val_digits(f: Seq<char>)
    requires
        clock_val(f) is Some,
    ensures
        forall|i: int| 0 <= i < f.len() ==> dec_of_char(f[i]) is Some,
    decreases f.len(),
{
    if f.len() > 1 {
        lemma_clock_val_digits(f.drop_last());
    }
    assert forall|i: int| 0 <= i < f.len() implies dec_of_char(f[i]) is Some by {
        if i == f.len() - 1 {
            assert(f.last() == f[i]);
        } else {
            assert(f.drop_last()[i] == f[i]);
        }
    }
}

/// The clock a clock field describes; the executable mirror of
/// `parse_clock`.
fn parse_clock_on(f: &str) -> (r: Result<u32, FenError>)
    ensures
        r == parse_clock(f@),
{
    let n = f.unicode_len();
    if n == 0 {
        return Err(FenError::BadClock);
    }
    let mut v: u32 = 0;
    let mut i: usize = 0;
    while i < n
        invariant
            i <= n,
            n == f@.len(),
            n >= 1,
            i > 0 ==> clock_val(f@.subrange(0, i as int)) == Some(v as int),
            i == 0 ==> v == 0,
        decreases n - i,
    {
        let ch = f.get_char(i);
        let d = match dec_of_char_on(ch) {
            Some(x) => x,
            None => {
                proof {
                    if clock_val(f@) is Some {
                        lemma_clock_val_digits(f@);
                    }
                }
                return Err(FenError::BadClock);
            },
        };
        proof {
            assert(f@.subrange(0, i as int + 1).drop_last() =~= f@.subrange(0, i as int));
            assert(f@.subrange(0, i as int + 1).last() == f@[i as int]);
        }
        if v > (0xffff_ffffu32 - (d as u32)) / 10 {
            proof {
                assert(clock_val(f@.subrange(0, i as int + 1)) == Some(10 * (v as int) + d as int));
                assert(10 * (v as int) + d as int > 0xffff_ffff);
                if clock_val(f@) is Some {
                    lemma_clock_val_grows(f@, i as int + 1);
                }
            }
            return Err(FenError::BadClock);
        }
        v = v * 10 + d as u32;
        i = i + 1;
    }
    proof {
        assert(f@.subrange(0, n as int) =~= f@);
    }
    Ok(v)
}

impl Board {
    /// Parses a FEN string: position, side to move, castling, en-passant
    /// and the optional halfmove and fullmove clocks. Any deviation from
    /// the grammar yields the `FenError` naming the offending field.
    pub fn from_fen(fen: &str) -> (r: Result<Board, FenError>)
        ensures
            r == spec_from_fen(fen@),
            r matches Ok(bd) ==> crate::board::wf(bd),
    {
        let ghost fs = split_on(fen@, ' ');
        let fields = split_char(fen, ' ');
        proof {
            assert(fields@.map_values(|t: &str| t@).len() == fs.len());
            assert(fields@.len() == fs.len());
        }
        if fields.len() < 4 || fields.len() > 6 {
            return Err(FenError::FieldCount);
        }
        let ghost ranks_s = split_on(fs[0], '/');
        let ranks = split_char(fields[0], '/');
        proof {
            assert(fields@[0]@ == fs[0]);
            assert(ranks@.map_values(|t: &str| t@).len() == ranks_s.len());
            assert(ranks@.len() == ranks_s.len());
        }
        if ranks.len() != 8 {
            return Err(FenError::RankShape);
        }
        let mut cells: Vec<Option<(Color, Piece)>> = Vec::new();
        let mut ri: usize = 0;
        proof {
            assert(ranks_s.subrange(0, 0) =~= Seq::<Seq<char>>::empty());
        }
        while ri < 8
            invariant
                ri <= 8,
                ranks@.len() == 8,
                ranks_s.len() == 8,
                fs == split_on(fen@, ' '),
                4 <= fs.len() <= 6,
                ranks_s == split_on(fs[0], '/'),
                forall|i: int| 0 <= i < 8 ==> (#[trigger] ranks@[i])@ == ranks_s[i],
                ranks_cells(ranks_s.subrange(0, ri as int)) == Ok::<
                    Seq<Option<(Color, Piece)>>,
                    FenError,
                >(cells@),
                cells@.len() == 8 * ri,
            decreases 8 - ri,
        {
            let rc = rank_cells_on(ranks[ri]);
            proof {
                assert(ranks_s.subrange(0, ri as int + 1).drop_last() =~= ranks_s.subrange(
                    0,
                    ri as int,
                ));
                assert(ranks_s.subrange(0, ri as int + 1).last() == ranks_s[ri as int]);
            }
            match rc {
                None => {
                    proof {
                        lemma_ranks_cells_err(ranks_s, ri as int + 1, FenError::InvalidChar);
                    }
                    return Err(FenError::InvalidChar);
                },
                Some(v) => {
                    if v.len() != 8 {
                        proof {
                            lemma_ranks_cells_err(ranks_s, ri as int + 1, FenError::RankShape);
                        }
                        return Err(FenError::RankShape);
                    }
                    let ghost oldc = cells@;
                    let mut k: usize = 0;
                    while k < 8
                        invariant
                            k <= 8,
                            v@.len() == 8,
                            cells@ =~= oldc + v@.subrange(0, k as int),
                        decreases 8 - k,
                    {
                        cells.push(v[k]);
                        proof {
                            assert(cells@ =~= oldc + v@.subrange(0, k as int + 1));
                        }
                        k = k + 1;
                    }
                    proof {
                        assert(v@.subrange(0, 8) =~= v@);
                        assert(cells@ =~= oldc + v@);
                    }
                },
            }
            ri = ri + 1;
        }
        proof {
            assert(ranks_s.subrange(0, 8) =~= ranks_s);
        }
        let mut b = Board::new();
        let mut si: usize = 0;
        proof {
            assert(cells@.subrange(0, 0) =~= Seq::<Option<(Color, Piece)>>::empty());
        }
        while si < 64
            invariant
                si <= 64,
                cells@.len() == 64,
                b == place_contents(cells@.subrange(0, si as int)),
            decreases 64 - si,
        {
            proof {
                assert(cells@.subrange(0, si as int + 1).drop_last() =~= cells@.subrange(
                    0,
                    si as int,
                ));
                assert(cells@.subrange(0, si as int + 1).last() == cells@[si as int]);
            }
            match cells[si] {
                Some(cp) => {
                    b = crate::moves::put_piece_on(b, cp.1, cp.0, si as u64);
                },
                None => {},
            }
            si = si + 1;
        }
        proof {
            assert(cells@.subrange(0, 64) =~= cells@);
        }
        let side = match parse_side_on(fields[1]) {
            Ok(c) => c,
            Err(e) => {
                return Err(e);
            },
        };
        let rights = match parse_castling_on(fields[2]) {
            Ok(cr) => cr,
            Err(e) => {
                return Err(e);
            },
        };
        let ep = match parse_ep_on(fields[3]) {
            Ok(t) => t,
            Err(e) => {
                return Err(e);
            },
        };
        let half = if fields.len() >= 5 {
            match parse_clock_on(fields[4]) {
                Ok(h) => h,
                Err(e) => {
                    return Err(e);
                },
            }
        } else {
            0
        };
        let full = if fields.len() >= 6 {
            match parse_clock_on(fields[5]) {
                Ok(h) => h,
                Err(e) => {
                    return Err(e);
                },
            }
        } else {
            1
        };
        proof {
            crate::laws::lemma_from_fen_wf(fen@);
        }
        Ok(
            Board {
                side_to_move: side,
                castle_rights: rights,
                en_passant: ep,
                halfmove_clock: half,
                fullmove_number: full,
                ..b
            },
        )
    }

    /// Encodes this board as a FEN string, the exact inverse of `from_fen`
    /// up to semantic equality of the board.
    pub fn to_fen(&self) -> (r: String)
        requires
            match self.en_passant {
                Some(t) => t < 64,
                None => true,
            },
        ensures
            r@ == spec_to_fen(*self),
    {
        let mut out = String::new();
        push_ranks(&mut out, self, 0);
        append_lit(&mut out, Lit::Space);
        match self.side_to_move {
            Color::White => append_lit(&mut out, Lit::SideW),
            Color::Black => append_lit(&mut out, Lit::SideB),
        }
        append_lit(&mut out, Lit::Space);
        let cr = self.castle_rights;
        if !cr.white_short && !cr.white_long && !cr.black_short && !cr.black_long {
            append_lit(&mut out, Lit::Dash);
        } else {
            let ghost before = out@;
            if cr.white_short {
                append_lit(&mut out, Lit::CastleK);
            }
            if cr.white_long {
                append_lit(&mut out, Lit::CastleQ);
            }
            if cr.black_short {
                append_lit(&mut out, Lit::CastleSmallK);
            }
            if cr.black_long {
                append_lit(&mut out, Lit::CastleSmallQ);
            }
            proof {
                assert(out@ =~= before + castle_chars(cr));
            }
        }
        append_lit(&mut out, Lit::Space);
        match self.en_passant {
            None => append_lit(&mut out, Lit::Dash),
            Some(t) => {
                out.append(file_str(t % 8));
                out.append(digit_str((8 - t / 8) as u32));
            },
        }
        append_lit(&mut out, Lit::Space);
        push_dec(&mut out, self.halfmove_clock);
        append_lit(&mut out, Lit::Space);
        push_dec(&mut out, self.fullmove_number);
        proof {
            assert(out@ =~= spec_to_fen(*self));
        }
        out
    }
}

/// The fixed single-character pieces of FEN text outside piece letters,
/// files and digits.
enum Lit {
    Space,
    Dash,
    Slash,
    SideW,
    SideB,
    CastleK,
    CastleQ,
    CastleSmallK,
    CastleSmallQ,
}

/// The character a fixed literal stands for.
spec fn lit_char(l: Lit) -> char {
    match l {
        Lit::Space => ' ',
        Lit::Dash => '-',
        Lit::Slash => '/',
        Lit::SideW => 'w',
        Lit::SideB => 'b',
        Lit::CastleK => 'K',
        Lit::CastleQ => 'Q',
        Lit::CastleSmallK => 'k',
        Lit::CastleSmallQ => 'q',
    }
}

/// Appends one fixed single-character literal.
fn append_lit(out: &mut String, l: Lit)
    ensures
        final(out)@ == old(out)@ + seq![lit_char(l)],
{
    match l {
        Lit::Space => {
            proof {
                reveal_strlit(" ");
                assert((" ")@ =~= seq![' ']);
            }
            out.append(" ");
        },
        Lit::Dash => {
            proof {
                reveal_strlit("-");
                assert(("-")@ =~= seq!['-']);
            }
            out.append("-");
        },
        Lit::Slash => {
            proof {
                reveal_strlit("/");
                assert(("/")@ =~= seq!['/']);
            }
            out.append("/");
        },
        Lit::SideW => {
            proof {
                reveal_strlit("w");
                assert(("w")@ =~= seq!['w']);
            }
            out.append("w");
        },
        Lit::SideB => {
            proof {
                reveal_strlit("b");
                assert(("b")@ =~= seq!['b']);
            }
            out.append("b");
        },
        Lit::CastleK => {
            proof {
                reveal_strlit("K");
                assert(("K")@ =~= seq!['K']);
            }
            out.append("K");
        },
        Lit::CastleQ => {
            proof {
                reveal_strlit("Q");
                assert(("Q")@ =~= seq!['Q']);
            }
            out.append("Q");
        },
        Lit::CastleSmallK => {
            proof {
                reveal_strlit("k");
                assert(("k")@ =~= seq!['k']);
            }
            out.append("k");
        },
        Lit::CastleSmallQ => {
            proof {
                reveal_strlit("q");
                assert(("q")@ =~= seq!['q']);
            }
            out.append("q");
        },
    }
}

/// The one-character string of a decimal digit.
fn digit_str(d: u32) -> (r: &'static str)
    requires
        d <= 9,
    ensures
        r@ == seq![digit_char(d as int)],
{
    if d == 0 {
        proof {
            reveal_strlit("0");
            assert(("0")@ =~= seq!['0']);
        }
        "0"
    } else if d == 1 {
        proof {
            reveal_strlit("1");
            assert(("1")@ =~= seq!['1']);
        }
        "1"
    } else if d == 2 {
        proof {
            reveal_strlit("2");
            assert(("2")@ =~= seq!['2']);
        }
        "2"
    } else if d == 3 {
        proof {
            reveal_strlit("3");
            assert(("3")@ =~= seq!['3']);
        }
        "3"
    } else if d == 4 {
        proof {
            reveal_strlit("4");
            assert(("4")@ =~= seq!['4']);
        }
        "4"
    } else if d == 5 {
        proof {
            reveal_strlit("5");
            assert(("5")@ =~= seq!['5']);
        }
        "5"
    } else if d == 6 {
        proof {
            reveal_strlit("6");
            assert(("6")@ =~= seq!['6']);
        }
        "6"
    } else if d == 7 {
        proof {
            reveal_strlit("7");
            assert(("7")@ =~= seq!['7']);
        }
        "7"
    } else if d == 8 {
        proof {
            reveal_strlit("8");
            assert(("8")@ =~= seq!['8']);
        }
        "8"
    } else {
        proof {
            reveal_strlit("9");
            assert(("9")@ =~= seq!['9']);
        }
        "9"
    }
}

/// The one-character string of a file letter.
fn file_str(f: u8) -> (r: &'static str)
    requires
        f <= 7,
    ensures
        r@ == seq![file_char(f as int)],
{
    if f == 0 {
        proof {
            reveal_strlit("a");
            assert(("a")@ =~= seq!['a']);
        }
        "a"
    } else if f == 1 {
        proof {
            reveal_strlit("b");
            assert(("b")@ =~= seq!['b']);
        }
        "b"
    } else if f == 2 {
        proof {
            reveal_strlit("c");
            assert(("c")@ =~= seq!['c']);
        }
        "c"
    } else if f == 3 {
        proof {
            reveal_strlit("d");
            assert(("d")@ =~= seq!['d']);
        }
        "d"
    } else if f == 4 {
        proof {
            reveal_strlit("e");
            assert(("e")@ =~= seq!['e']);
        }
        "e"
    } else if f == 5 {
        proof {
            reveal_strlit("f");
            assert(("f")@ =~= seq!['f']);
        }
        "f"
    } else if f == 6 {
        proof {
            reveal_strlit("g");
            assert(("g")@ =~= seq!['g']);
        }
        "g"
    } else {
        proof {
            reveal_strlit("h");
            assert(("h")@ =~= seq!['h']);
        }
        "h"
    }
}

/// The one-character string of a piece letter.
fn piece_str(c: Color, k: Piece) -> (r: &'static str)
    ensures
        r@ == seq![piece_char(c, k)],
{
    match (c, k) {
        (Color::White, Piece::Pawn) => {
            proof {
                reveal_strlit("P");
                assert(("P")@ =~= seq!['P']);
            }
            "P"
        },
        (Color::White, Piece::Knight) => {
            proof {
                reveal_strlit("N");
                assert(("N")@ =~= seq!['N']);
            }
            "N"
        },
        (Color::White, Piece::Bishop) => {
            proof {
                reveal_strlit("B");
                assert(("B")@ =~= seq!['B']);
            }
            "B"
        },
        (Color::White, Piece::Rook) => {
            proof {
                reveal_strlit("R");
                assert(("R")@ =~= seq!['R']);
            }
            "R"
        },
        (Color::White, Piece::Queen) => {
            proof {
                reveal_strlit("Q");
                assert(("Q")@ =~= seq!['Q']);
            }
            "Q"
        },
        (Color::White, Piece::King) => {
            proof {
                reveal_strlit("K");
                assert(("K")@ =~= seq!['K']);
            }
            "K"
        },
        (Color::Black, Piece::Pawn) => {
            proof {
                reveal_strlit("p");
                assert(("p")@ =~= seq!['p']);
            }
            "p"
        },
        (Color::Black, Piece::Knight) => {
            proof {
                reveal_strlit("n");
                assert(("n")@ =~= seq!['n']);
            }
            "n"
        },
        (Color::Black, Piece::Bishop) => {
            proof {
                reveal_strlit("b");
                assert(("b")@ =~= seq!['b']);
            }
            "b"
        },
        (Color::Black, Piece::Rook) => {
            proof {
                reveal_strlit("r");
                assert(("r")@ =~= seq!['r']);
            }
            "r"
        },
        (Color::Black, Piece::Queen) => {
            proof {
                reveal_strlit("q");
                assert(("q")@ =~= seq!['q']);
            }
            "q"
        },
        (Color::Black, Piece::King) => {
            proof {
                reveal_strlit("k");
                assert(("k")@ =~= seq!['k']);
            }
            "k"
        },
    }
}

/// Appends one rank's FEN text; the executable mirror of `print_rank`.
fn push_rank(out: &mut String, b: &Board, r: u8, f: u8, pending: u8)
    requires
        r < 8,
        f <= 8,
        pending <= f,
    ensures
        final(out)@ == old(out)@ + print_rank(*b, r as int, f as int, pending as int),
    decreases 8 - f,
{
    if f >= 8 {
        if pending > 0 {
            out.append(digit_str(pending as u32));
        } else {
            proof {
                assert(out@ =~= out@ + print_rank(*b, r as int, f as int, pending as int));
            }
        }
    } else {
        let sq = (r * 8 + f) as u64;
        let ghost start = out@;
        match (b.kind_on(sq), b.color_on(sq)) {
            (Some(k), Some(c)) => {
                if pending > 0 {
                    out.append(digit_str(pending as u32));
                }
                out.append(piece_str(c, k));
                push_rank(out, b, r, f + 1, 0);
                proof {
                    assert(out@ =~= start + print_rank(*b, r as int, f as int, pending as int));
                }
            },
            _ => {
                push_rank(out, b, r, f + 1, pending + 1);
            },
        }
    }
}

/// Appends the whole placement field; the executable mirror of
/// `print_ranks`.
fn push_ranks(out: &mut String, b: &Board, r: u8)
    requires
        r <= 7,
    ensures
        final(out)@ == old(out)@ + print_ranks(*b, r as int),
    decreases 7 - r,
{
    if r >= 7 {
        push_rank(out, b, 7, 0, 0);
    } else {
        let ghost start = out@;
        push_rank(out, b, r, 0, 0);
        append_lit(out, Lit::Slash);
        push_ranks(out, b, r + 1);
        proof {
            assert(out@ =~= start + print_ranks(*b, r as int));
        }
    }
}

/// Appends the decimal digits of `n`; the executable mirror of
/// `dec_chars`.
fn push_dec(out: &mut String, n: u32)
    ensures
        final(out)@ == old(out)@ + dec_chars(n as int),
    decreases n,
{
    if n < 10 {
        out.append(digit_str(n));
    } else {
        let ghost start = out@;
        push_dec(out, n / 10);
        out.append(digit_str(n % 10));
        proof {
            assert(out@ =~= start + dec_chars(n as int));
        }
    }
}

} // verus!
