use aperture_movegen::Board;
use aperture_movegen::GameState;
use aperture_movegen::Move;
use aperture_movegen::MoveKind;
use aperture_movegen::generate_legal_moves;

/// Finds the generated move with the given coordinates (ignoring
/// promotions) and applies it; panics when no such legal move exists.
fn play(b: &Board, from: u8, to: u8) -> Board {
    let moves = generate_legal_moves(b);
    for m in &moves {
        if m.from == from && m.to == to && m.promotion.is_none() {
            return b.apply(m);
        }
    }
    panic!("no legal move from {} to {}", from, to);
}

fn find_move(moves: &[Move], from: u8, to: u8) -> Option<Move> {
    moves.iter().find(|m| m.from == from && m.to == to).copied()
}

fn perft(b: &Board, depth: u32) -> u64 {
    if depth == 0 {
        return 1;
    }
    let moves = generate_legal_moves(b);
    if depth == 1 {
        return moves.len() as u64;
    }
    let mut total = 0u64;
    for m in &moves {
        total += perft(&b.apply(m), depth - 1);
    }
    total
}

// Square indices: bit 0 is a8, bit 63 is h1, so square = (8 - rank) * 8 + file.
const F2: u8 = 53;
const F3: u8 = 45;
const E7: u8 = 12;
const E5: u8 = 28;
const G2: u8 = 54;
const G4: u8 = 38;
const D8: u8 = 3;
const H4: u8 = 39;
const D4: u8 = 35;
const E3: u8 = 44;
const E4: u8 = 36;
const E1: u8 = 60;
const G1: u8 = 62;

#[test]
fn fools_mate_is_checkmate() {
    let b = Board::starting_position();
    let b = play(&b, F2, F3);
    let b = play(&b, E7, E5);
    let b = play(&b, G2, G4);
    let b = play(&b, D8, H4);
    assert_eq!(generate_legal_moves(&b).len(), 0);
    let history: Vec<u64> = Vec::new();
    assert_eq!(b.classify(&history), GameState::Checkmate);
}

#[test]
fn en_passant_capture_removes_victim_from_its_square() {
    let b = Board::from_fen("rnbqkbnr/ppp1pppp/8/8/3pP3/8/PPPP1PPP/RNBQKBNR b KQkq e3 0 3")
        .unwrap();
    let moves = generate_legal_moves(&b);
    let ep = find_move(&moves, D4, E3).expect("en-passant capture must be generated");
    assert_eq!(ep.kind, MoveKind::EnPassantCapture);
    let after = b.apply(&ep);
    // The captured white pawn stood on e4, one rank behind the target e3.
    assert!(!after.pawns.test(E4 as u64));
    assert!(!after.white.test(E4 as u64));
    // The capturing black pawn landed on the target square e3.
    assert!(after.pawns.test(E3 as u64));
    assert!(after.black.test(E3 as u64));
    assert!(!after.black.test(D4 as u64));
}

#[test]
fn no_castling_through_attacked_square() {
    // The rook on f8 attacks f1, which the king would cross.
    let blocked = Board::from_fen("5r2/8/8/8/8/8/8/4K2R w K - 0 1").unwrap();
    let moves = generate_legal_moves(&blocked);
    assert!(find_move(&moves, E1, G1).is_none());
    // Without the attacker, the same position castles.
    let free = Board::from_fen("4k3/8/8/8/8/8/8/4K2R w K - 0 1").unwrap();
    let moves = generate_legal_moves(&free);
    let castle = find_move(&moves, E1, G1).expect("castling must be generated");
    assert_eq!(castle.kind, MoveKind::CastleShort);
    let after = free.apply(&castle);
    // The rook moved from h1 to f1.
    assert!(!after.rooks.test(63));
    assert!(after.rooks.test(61));
    assert!(!after.castle_rights.white_short);
}

#[test]
fn perft_from_start_depths_1_to_3() {
    let b = Board::starting_position();
    assert_eq!(perft(&b, 1), 20);
    assert_eq!(perft(&b, 2), 400);
    assert_eq!(perft(&b, 3), 8902);
}

#[test]
fn perft_from_start_depth_4() {
    let b = Board::starting_position();
    assert_eq!(perft(&b, 4), 197281);
}

#[test]
fn stalemate_is_detected() {
    let b = Board::from_fen("7k/5Q2/6K1/8/8/8/8/8 b - - 0 1").unwrap();
    let history: Vec<u64> = Vec::new();
    assert_eq!(b.classify(&history), GameState::Stalemate);
}

#[test]
fn plain_check_is_reported() {
    let b = Board::from_fen("k6R/8/8/8/8/8/8/K7 b - - 0 1").unwrap();
    let history: Vec<u64> = Vec::new();
    assert_eq!(b.classify(&history), GameState::Check);
}

#[test]
fn fifty_move_rule_draw() {
    let b = Board::from_fen("4k3/8/8/8/8/8/8/4K2R w - - 100 80").unwrap();
    let history: Vec<u64> = Vec::new();
    assert_eq!(b.classify(&history), GameState::DrawFiftyMove);
}

#[test]
fn insufficient_material_draw() {
    let history: Vec<u64> = Vec::new();
    let kk = Board::from_fen("k7/8/8/8/8/8/8/7K w - - 0 1").unwrap();
    assert_eq!(kk.classify(&history), GameState::DrawInsufficientMaterial);
    let kbk = Board::from_fen("k7/2b5/8/8/8/8/8/7K w - - 0 1").unwrap();
    assert_eq!(kbk.classify(&history), GameState::DrawInsufficientMaterial);
    let knk = Board::from_fen("k7/2n5/8/8/8/8/8/7K w - - 0 1").unwrap();
    assert_eq!(knk.classify(&history), GameState::DrawInsufficientMaterial);
}

#[test]
fn threefold_repetition_draw() {
    let b = Board::starting_position();
    let h = b.zobrist_hash();
    let history = vec![h, h];
    assert_eq!(b.classify(&history), GameState::DrawThreefold);
    let short_history = vec![h];
    assert_eq!(b.classify(&short_history), GameState::Ongoing);
}

#[test]
fn promotion_expands_to_four_moves() {
    let b = Board::from_fen("8/P7/8/8/8/8/8/k1K5 w - - 0 1").unwrap();
    let moves = generate_legal_moves(&b);
    let promos: Vec<Move> = moves.iter().filter(|m| m.from == 8 && m.to == 0).copied().collect();
    assert_eq!(promos.len(), 4);
    assert!(promos.iter().all(|m| m.kind == MoveKind::Promotion));
    let queen = promos.iter().find(
        |m| m.promotion == Some(aperture_movegen::Piece::Queen),
    ).unwrap();
    let after = b.apply(queen);
    assert!(after.queens.test(0));
    assert!(!after.pawns.test(0));
}

#[test]
fn double_push_sets_en_passant_target() {
    let b = Board::starting_position();
    // e2 to e4 skips e3, square 44.
    let after = play(&b, 52, E4);
    assert_eq!(after.en_passant, Some(E3));
    assert_eq!(after.fullmove_number, 1);
    // Any quiet reply clears it again.
    let after2 = play(&after, E7, E5);
    assert_eq!(after2.en_passant, Some(20));
    assert_eq!(after2.fullmove_number, 2);
}

#[test]
fn rights_and_clocks_update_on_moves() {
    let b = Board::from_fen("4k3/8/8/8/8/8/P7/4K2R w K - 3 7").unwrap();
    // A rook move from h1 forfeits the short castling right and ticks the clock.
    let rook_up = play(&b, 63, 55);
    assert!(!rook_up.castle_rights.white_short);
    assert_eq!(rook_up.halfmove_clock, 4);
    assert_eq!(rook_up.fullmove_number, 7);
    // A pawn move resets the halfmove clock.
    let pawn_push = play(&b, 48, 40);
    assert_eq!(pawn_push.halfmove_clock, 0);
    assert!(pawn_push.castle_rights.white_short);
}
