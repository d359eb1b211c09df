use chess_core::board::into_piece;
use chess_core::board::Board;
use chess_core::piece::Piece;
use chess_core::player::Player;
use chess_core::utils::flatten_bit;

fn empty_slots() -> [u64; 16] {
    [0u64; 16]
}

fn live_count(b: &Board, white: bool) -> usize {
    let mut it = if white { b.white_iter() } else { b.black_iter() };
    let mut n = 0;
    while let Some(_) = it.next() {
        n += 1;
    }
    n
}

#[test]
fn slot_kinds() {
    assert_eq!(into_piece(0), Piece::King);
    assert_eq!(into_piece(1), Piece::Knight);
    assert_eq!(into_piece(2), Piece::Knight);
    assert_eq!(into_piece(3), Piece::Rook);
    assert_eq!(into_piece(4), Piece::Rook);
    assert_eq!(into_piece(5), Piece::Queen);
    assert_eq!(into_piece(6), Piece::Bishop);
    assert_eq!(into_piece(7), Piece::Bishop);
    for id in 8..16 {
        assert_eq!(into_piece(id), Piece::Pawn);
    }
}

#[test]
fn opening_position_is_well_formed() {
    let b = Board::new();
    let mut seen: u64 = 0;
    for side in [&b.white, &b.black] {
        for s in 0..16 {
            let p = side.positions[s];
            assert!(p != 0, "every piece starts alive");
            assert_eq!(p & (p - 1), 0, "one square per piece");
            assert_eq!(p & seen, 0, "no two pieces share a square");
            seen |= p;
        }
    }
    assert_eq!(b.white.positions[0], flatten_bit(4, 0));
    assert_eq!(b.black.positions[0], flatten_bit(4, 7));
    assert_eq!(live_count(&b, true), 16);
    assert_eq!(live_count(&b, false), 16);
}

#[test]
fn opening_double_pawn_push() {
    // the pawn at file 1 rank 1 may step one or two ranks ahead
    let b = Board::new();
    let id = b.id_from_pos(1, 1).unwrap();
    let moves = b.get_legal_moves(id);
    assert!(moves & flatten_bit(1, 2) != 0);
    assert!(moves & flatten_bit(1, 3) != 0);
    assert_eq!(moves, flatten_bit(1, 2) | flatten_bit(1, 3));
}

#[test]
fn knight_can_leap_at_start() {
    let b = Board::new();
    let id = b.id_from_pos(1, 0).unwrap();
    let moves = b.get_legal_moves(id);
    assert_eq!(moves, flatten_bit(0, 2) | flatten_bit(2, 2));
}

#[test]
fn blocked_pieces_have_no_moves_at_start() {
    let b = Board::new();
    for (x, y) in [(0u8, 0u8), (2, 0), (3, 0), (4, 0)] {
        let id = b.id_from_pos(x, y).unwrap();
        assert_eq!(b.get_legal_moves(id), 0);
    }
    assert!(!b.is_checkmate());
}

#[test]
fn capture_lowers_the_opponents_count_by_one() {
    // white pawn e2, black pawn d3; the pawn may capture diagonally
    let mut w = empty_slots();
    let mut blk = empty_slots();
    w[0] = flatten_bit(4, 0);
    w[8] = flatten_bit(4, 1);
    blk[0] = flatten_bit(7, 7);
    blk[8] = flatten_bit(3, 2);
    let mut b = Board::from_positions(w, blk, Player::White).unwrap();
    let moves = b.get_legal_moves(8);
    assert!(moves & flatten_bit(3, 2) != 0);
    assert_eq!(live_count(&b, false), 2);
    b.play_move(8, flatten_bit(3, 2));
    assert_eq!(live_count(&b, true), 2, "the mover keeps its pieces");
    assert_eq!(live_count(&b, false), 1, "exactly one piece was taken");
    assert_eq!(b.black.positions[8], 0);
    assert_eq!(b.white.positions[8], flatten_bit(3, 2));
    assert!(matches!(b.player, Player::Black));
}

#[test]
fn en_passant_window_opens_and_closes() {
    // white pawn e2, black pawn d4: a double advance to e4 may be taken in
    // passing at e3, but only on the move right after
    let mut w = empty_slots();
    let mut blk = empty_slots();
    w[0] = flatten_bit(0, 0);
    w[8] = flatten_bit(4, 1);
    blk[0] = flatten_bit(7, 7);
    blk[8] = flatten_bit(3, 3);
    let mut b = Board::from_positions(w, blk, Player::White).unwrap();

    b.play_move(8, flatten_bit(4, 3));
    assert_eq!(b.white.en_passant_pos, flatten_bit(4, 3));
    let moves = b.get_legal_moves(8);
    assert!(
        moves & flatten_bit(4, 2) != 0,
        "the en-passant capture is offered at once"
    );

    // the same position, but black answers with another move
    let mut b2 = Board::from_positions(w, blk, Player::White).unwrap();
    b2.play_move(8, flatten_bit(4, 3));
    b2.play_move(0, flatten_bit(7, 6));
    assert_eq!(b2.white.en_passant_pos, flatten_bit(4, 3));
    b2.play_move(0, flatten_bit(1, 0));
    assert_eq!(
        b2.white.en_passant_pos, 0,
        "any later white move clears the window"
    );
    let moves = b2.get_legal_moves(8);
    assert_eq!(
        moves & flatten_bit(4, 2),
        0,
        "the capture in passing is no longer offered"
    );
}

#[test]
fn en_passant_capture_takes_the_pawn_behind() {
    let mut w = empty_slots();
    let mut blk = empty_slots();
    w[0] = flatten_bit(0, 0);
    w[8] = flatten_bit(4, 1);
    blk[0] = flatten_bit(7, 7);
    blk[8] = flatten_bit(3, 3);
    let mut b = Board::from_positions(w, blk, Player::White).unwrap();
    b.play_move(8, flatten_bit(4, 3));
    b.play_move(8, flatten_bit(4, 2));
    assert_eq!(b.white.positions[8], 0, "the double-stepped pawn is gone");
    assert_eq!(b.black.positions[8], flatten_bit(4, 2));
}

#[test]
fn back_rank_mate_is_detected() {
    // black king h8, white queen g7 guarded by the white rook on g1
    let mut w = empty_slots();
    let mut blk = empty_slots();
    w[0] = flatten_bit(0, 0);
    w[5] = flatten_bit(6, 6);
    w[3] = flatten_bit(6, 0);
    blk[0] = flatten_bit(7, 7);
    let b = Board::from_positions(w, blk, Player::Black).unwrap();
    assert_eq!(b.get_legal_moves(0), 0, "the king has no escape");
    assert!(b.is_checkmate());
}

#[test]
fn checked_king_cannot_retreat_along_the_ray() {
    // black rook e8 checks the white king on e4: the king does not shield
    // the squares behind himself, so stepping back to e3 stays attacked
    let mut w = empty_slots();
    let mut blk = empty_slots();
    w[0] = flatten_bit(4, 3);
    blk[0] = flatten_bit(0, 7);
    blk[3] = flatten_bit(4, 7);
    let b = Board::from_positions(w, blk, Player::White).unwrap();
    let moves = b.get_legal_moves(0);
    assert_eq!(moves & flatten_bit(4, 2), 0, "retreating down the ray is no escape");
    assert_eq!(moves & flatten_bit(4, 4), 0, "stepping toward the rook neither");
    assert!(moves & flatten_bit(3, 3) != 0, "stepping off the file is");
    assert!(moves & flatten_bit(5, 2) != 0);
}

#[test]
fn castling_path_is_seen_through_the_king() {
    // a black rook on b1 checks the white king through c1 and d1; the
    // squares the castling king would cross on the other side are attacked
    // once his own square is vacated, so no castling is offered
    let mut w = empty_slots();
    let mut blk = empty_slots();
    w[0] = flatten_bit(4, 0);
    w[4] = flatten_bit(7, 0);
    blk[0] = flatten_bit(0, 7);
    blk[3] = flatten_bit(1, 0);
    let b = Board::from_positions(w, blk, Player::White).unwrap();
    assert_eq!(b.get_legal_moves(0) & flatten_bit(6, 0), 0);
}

#[test]
fn stalemate_also_reads_as_no_moves() {
    // black king a8 cornered by the white queen on b6: no move, yet no
    // check either — the terminal test does not tell the two apart
    let mut w = empty_slots();
    let mut blk = empty_slots();
    w[0] = flatten_bit(4, 0);
    w[5] = flatten_bit(1, 5);
    blk[0] = flatten_bit(0, 7);
    let b = Board::from_positions(w, blk, Player::Black).unwrap();
    assert_eq!(b.get_legal_moves(0), 0);
    assert!(b.is_checkmate());
}

#[test]
fn listing_shows_the_promoted_kind() {
    let mut w = empty_slots();
    let mut blk = empty_slots();
    w[0] = flatten_bit(4, 0);
    w[8] = flatten_bit(0, 6);
    blk[0] = flatten_bit(7, 7);
    let mut b = Board::from_positions(w, blk, Player::White).unwrap();
    b.play_move(8, flatten_bit(0, 7));
    b.select_promotion(Piece::Knight);
    let mut it = b.white_iter();
    let mut found = false;
    while let Some(e) = it.next() {
        if e == (Piece::Knight, 0, 7) {
            found = true;
        }
        assert!(e.0 != Piece::Pawn, "the pawn now lists as a knight");
    }
    assert!(found);
}

#[test]
fn lone_kings_are_not_checkmate() {
    let mut w = empty_slots();
    let mut blk = empty_slots();
    w[0] = flatten_bit(0, 0);
    blk[0] = flatten_bit(7, 7);
    let b = Board::from_positions(w, blk, Player::White).unwrap();
    assert!(!b.is_checkmate());
    assert_eq!(
        b.get_legal_moves(0),
        flatten_bit(1, 0) | flatten_bit(0, 1) | flatten_bit(1, 1)
    );
}

#[test]
fn pinned_bishop_cannot_leave_its_rank() {
    // king e1, friendly bishop f1, enemy rook h1: the bishop moves only on
    // diagonals, so pinned along the rank it may not move at all
    let mut w = empty_slots();
    let mut blk = empty_slots();
    w[0] = flatten_bit(4, 0);
    w[6] = flatten_bit(5, 0);
    blk[0] = flatten_bit(0, 7);
    blk[3] = flatten_bit(7, 0);
    let b = Board::from_positions(w, blk, Player::White).unwrap();
    let moves = b.get_legal_moves(6);
    let rank0: u64 = 0xff;
    assert_eq!(moves & !rank0, 0, "no destination leaves the rank");
    assert_eq!(moves, 0);
}

#[test]
fn pinned_rook_stays_on_the_pinning_file() {
    // king e1, friendly rook e3, enemy queen e7: the rook may slide along
    // the file and capture the queen, nothing else
    let mut w = empty_slots();
    let mut blk = empty_slots();
    w[0] = flatten_bit(4, 0);
    w[3] = flatten_bit(4, 2);
    blk[0] = flatten_bit(0, 7);
    blk[5] = flatten_bit(4, 6);
    let b = Board::from_positions(w, blk, Player::White).unwrap();
    let moves = b.get_legal_moves(3);
    let file4 = chess_core::utils::col_mask(4);
    assert_eq!(moves & !file4, 0, "every destination stays on the file");
    assert!(moves & flatten_bit(4, 6) != 0, "the pinner can be captured");
    assert!(moves & flatten_bit(4, 1) != 0);
}

#[test]
fn promotion_gates_the_turn() {
    let mut w = empty_slots();
    let mut blk = empty_slots();
    w[0] = flatten_bit(4, 0);
    w[8] = flatten_bit(0, 6);
    blk[0] = flatten_bit(7, 7);
    let mut b = Board::from_positions(w, blk, Player::White).unwrap();
    let moves = b.get_legal_moves(8);
    assert_eq!(moves, flatten_bit(0, 7));
    b.play_move(8, flatten_bit(0, 7));
    assert!(b.has_promotion());
    assert!(
        matches!(b.player, Player::White),
        "the turn waits for the promotion choice"
    );
    b.select_promotion(Piece::Queen);
    assert!(!b.has_promotion());
    assert!(matches!(b.player, Player::Black), "then it flips exactly once");
}

#[test]
fn promoted_pawn_moves_as_its_new_kind() {
    let mut w = empty_slots();
    let mut blk = empty_slots();
    w[0] = flatten_bit(4, 0);
    w[8] = flatten_bit(0, 6);
    blk[0] = flatten_bit(7, 7);
    let mut b = Board::from_positions(w, blk, Player::White).unwrap();
    b.play_move(8, flatten_bit(0, 7));
    b.select_promotion(Piece::Rook);
    b.play_move(0, flatten_bit(7, 6));
    let moves = b.get_legal_moves(8);
    let file0 = chess_core::utils::col_mask(0);
    let rank7 = chess_core::utils::byte_mask(56);
    assert!(moves & flatten_bit(0, 0) != 0);
    assert!(moves & flatten_bit(6, 7) != 0);
    assert_eq!(moves & !(file0 | rank7), 0);
}

#[test]
fn castling_moves_the_rook_too() {
    let mut w = empty_slots();
    let mut blk = empty_slots();
    w[0] = flatten_bit(4, 0);
    w[4] = flatten_bit(7, 0);
    blk[0] = flatten_bit(4, 7);
    let mut b = Board::from_positions(w, blk, Player::White).unwrap();
    let moves = b.get_legal_moves(0);
    assert!(moves & flatten_bit(6, 0) != 0, "kingside castling is offered");
    b.play_move(0, flatten_bit(6, 0));
    assert_eq!(b.white.positions[0], flatten_bit(6, 0));
    assert_eq!(b.white.positions[4], flatten_bit(5, 0), "the rook crossed over");
    assert!(b.white.did_castling);
}

#[test]
fn castling_needs_an_unattacked_path() {
    // a black rook on f8 guards f1, the square the king would cross
    let mut w = empty_slots();
    let mut blk = empty_slots();
    w[0] = flatten_bit(4, 0);
    w[4] = flatten_bit(7, 0);
    blk[0] = flatten_bit(0, 7);
    blk[3] = flatten_bit(5, 7);
    let b = Board::from_positions(w, blk, Player::White).unwrap();
    let moves = b.get_legal_moves(0);
    assert_eq!(moves & flatten_bit(6, 0), 0);
}

#[test]
fn castling_gating_is_permanent() {
    // once the king has moved, no later position restores the right
    let mut w = empty_slots();
    let mut blk = empty_slots();
    w[0] = flatten_bit(4, 0);
    w[4] = flatten_bit(7, 0);
    blk[0] = flatten_bit(4, 7);
    let mut b = Board::from_positions(w, blk, Player::White).unwrap();
    b.play_move(0, flatten_bit(3, 0));
    b.play_move(0, flatten_bit(3, 7));
    b.play_move(0, flatten_bit(4, 0));
    b.play_move(0, flatten_bit(4, 7));
    assert!(b.white.king_moved);
    assert_eq!(b.get_legal_moves(0) & flatten_bit(6, 0), 0);

    // the same for the rook leaving and returning
    let mut b2 = Board::from_positions(w, blk, Player::White).unwrap();
    b2.play_move(4, flatten_bit(6, 0));
    b2.play_move(0, flatten_bit(3, 7));
    b2.play_move(4, flatten_bit(7, 0));
    b2.play_move(0, flatten_bit(4, 7));
    assert!(!b2.white.king_moved);
    assert_eq!(b2.get_legal_moves(0) & flatten_bit(6, 0), 0);
}

#[test]
fn from_positions_rejects_overlaps_and_wide_masks() {
    let mut w = empty_slots();
    let mut blk = empty_slots();
    w[0] = flatten_bit(4, 0);
    blk[0] = flatten_bit(4, 7);
    assert!(Board::from_positions(w, blk, Player::White).is_some());

    let mut w2 = w;
    w2[5] = flatten_bit(4, 0);
    assert!(Board::from_positions(w2, blk, Player::White).is_none());

    let mut w3 = w;
    w3[5] = 0b11;
    assert!(Board::from_positions(w3, blk, Player::White).is_none());

    let mut blk2 = blk;
    blk2[5] = flatten_bit(4, 0);
    assert!(Board::from_positions(w, blk2, Player::White).is_none());
}

#[test]
fn check_forces_an_answer() {
    // a rook gives check: the king must step aside, a knight far away has
    // nothing to offer, and a bishop can block
    let mut w = empty_slots();
    let mut blk = empty_slots();
    w[0] = flatten_bit(4, 0);
    w[1] = flatten_bit(0, 1);
    w[6] = flatten_bit(2, 1);
    blk[0] = flatten_bit(0, 7);
    blk[3] = flatten_bit(4, 5);
    let b = Board::from_positions(w, blk, Player::White).unwrap();
    let knight_moves = b.get_legal_moves(1);
    assert_eq!(knight_moves, 0, "the knight cannot help against the check");
    let bishop_moves = b.get_legal_moves(6);
    assert_eq!(bishop_moves, flatten_bit(4, 3), "the bishop can only block");
    let king_moves = b.get_legal_moves(0);
    assert_eq!(king_moves & flatten_bit(4, 1), 0, "staying on the file is no escape");
    assert!(king_moves & flatten_bit(3, 0) != 0);
}
