use aperture_movegen::Board;
use aperture_movegen::FenError;
use aperture_movegen::generate_legal_moves;

const START: &str = "rnbqkbnr/pppppppp/8/8/8/8/PPPPPPPP/RNBQKBNR w KQkq - 0 1";

#[test]
fn starting_position_fields() {
    let b = Board::from_fen(START).unwrap();
    assert_eq!(b, Board::starting_position());
    assert_eq!(b.pawns.0, 0x00ff_0000_0000_ff00);
    assert_eq!(b.knights.0, 0x4200_0000_0000_0042);
    assert_eq!(b.bishops.0, 0x2400_0000_0000_0024);
    assert_eq!(b.rooks.0, 0x8100_0000_0000_0081);
    assert_eq!(b.queens.0, 0x0800_0000_0000_0008);
    assert_eq!(b.kings.0, 0x1000_0000_0000_0010);
    assert_eq!(b.white.0, 0xffff_0000_0000_0000);
    assert_eq!(b.black.0, 0x0000_0000_0000_ffff);
    assert!(b.castle_rights.white_short);
    assert!(b.castle_rights.white_long);
    assert!(b.castle_rights.black_short);
    assert!(b.castle_rights.black_long);
    assert_eq!(b.en_passant, None);
    assert_eq!(b.halfmove_clock, 0);
    assert_eq!(b.fullmove_number, 1);
    assert_eq!(generate_legal_moves(&b).len(), 20);
}

#[test]
fn round_trip_start() {
    let b = Board::from_fen(START).unwrap();
    let text = b.to_fen();
    assert_eq!(text, START);
    assert_eq!(Board::from_fen(&text).unwrap(), b);
}

#[test]
fn round_trip_complex_positions() {
    let fens = [
        "r3k2r/p1ppqpb1/bn2pnp1/3PN3/1p2P3/2N2Q1p/PPPBBPPP/R3K2R w KQkq - 0 1",
        "rnbqkbnr/ppp1pppp/8/8/3pP3/8/PPPP1PPP/RNBQKBNR b KQkq e3 0 3",
        "8/8/8/8/8/8/8/8 w - - 0 1",
        "4k3/8/8/8/8/8/8/4K2R b K - 42 137",
    ];
    for fen in fens {
        let b = Board::from_fen(fen).unwrap();
        let text = b.to_fen();
        assert_eq!(text, fen);
        assert_eq!(Board::from_fen(&text).unwrap(), b);
    }
}

#[test]
fn clock_defaults_when_absent() {
    let b = Board::from_fen("8/8/8/8/8/8/8/8 w - -").unwrap();
    assert_eq!(b.halfmove_clock, 0);
    assert_eq!(b.fullmove_number, 1);
}

#[test]
fn rejects_wrong_field_count() {
    assert_eq!(Board::from_fen("x"), Err(FenError::FieldCount));
    assert_eq!(
        Board::from_fen("8/8/8/8/8/8/8/8 w - - 0 1 extra"),
        Err(FenError::FieldCount)
    );
}

#[test]
fn rejects_wrong_rank_count() {
    assert_eq!(Board::from_fen("8/8/8/8/8/8/8 w - -"), Err(FenError::RankShape));
    assert_eq!(Board::from_fen("8/8/8/8/8/8/8/8/8 w - -"), Err(FenError::RankShape));
}

#[test]
fn rejects_wrong_square_count_in_rank() {
    assert_eq!(Board::from_fen("7/8/8/8/8/8/8/8 w - -"), Err(FenError::RankShape));
    assert_eq!(
        Board::from_fen("ppppppppp/8/8/8/8/8/8/8 w - -"),
        Err(FenError::RankShape)
    );
    assert_eq!(
        Board::from_fen("rnbqkbnr/pppppppp/8/8/8/8/PPPPPPPP/RNBQKBN w KQkq - 0 1"),
        Err(FenError::RankShape)
    );
}

#[test]
fn rejects_invalid_placement_character() {
    assert_eq!(Board::from_fen("x7/8/8/8/8/8/8/8 w - -"), Err(FenError::InvalidChar));
    assert_eq!(Board::from_fen("9/8/8/8/8/8/8/8 w - -"), Err(FenError::InvalidChar));
}

#[test]
fn rejects_bad_side() {
    assert_eq!(Board::from_fen("8/8/8/8/8/8/8/8 x - -"), Err(FenError::BadSide));
    assert_eq!(Board::from_fen("8/8/8/8/8/8/8/8 ww - -"), Err(FenError::BadSide));
}

#[test]
fn rejects_bad_castling() {
    assert_eq!(Board::from_fen("8/8/8/8/8/8/8/8 w X -"), Err(FenError::BadCastling));
    assert_eq!(Board::from_fen("8/8/8/8/8/8/8/8 w KQkqK -"), Err(FenError::BadCastling));
}

#[test]
fn rejects_bad_en_passant() {
    assert_eq!(Board::from_fen("8/8/8/8/8/8/8/8 w - e9"), Err(FenError::BadEnPassant));
    assert_eq!(Board::from_fen("8/8/8/8/8/8/8/8 w - i3"), Err(FenError::BadEnPassant));
    assert_eq!(Board::from_fen("8/8/8/8/8/8/8/8 w - e33"), Err(FenError::BadEnPassant));
}

#[test]
fn rejects_bad_clock() {
    assert_eq!(Board::from_fen("8/8/8/8/8/8/8/8 w - - x 1"), Err(FenError::BadClock));
    assert_eq!(
        Board::from_fen("8/8/8/8/8/8/8/8 w - - 99999999999 1"),
        Err(FenError::BadClock)
    );
}

#[test]
fn parses_en_passant_square() {
    let b = Board::from_fen("rnbqkbnr/ppp1pppp/8/8/3pP3/8/PPPP1PPP/RNBQKBNR b KQkq e3 0 3")
        .unwrap();
    // e3 is file 4 on rank 3, which is square (8 - 3) * 8 + 4 = 44.
    assert_eq!(b.en_passant, Some(44));
}

#[test]
fn zobrist_hash_tracks_position_identity() {
    let a = Board::from_fen(START).unwrap();
    let b = Board::from_fen(START).unwrap();
    assert_eq!(a.zobrist_hash(), b.zobrist_hash());
    let c = Board::from_fen("rnbqkbnr/pppppppp/8/8/8/8/PPPPPPPP/RNBQKBNR b KQkq - 0 1").unwrap();
    assert_ne!(a.zobrist_hash(), c.zobrist_hash());
    let d = Board::from_fen("rnbqkbnr/pppppppp/8/8/8/8/PPPPPPPP/RNBQKBNR w KQk - 0 1").unwrap();
    assert_ne!(a.zobrist_hash(), d.zobrist_hash());
}
