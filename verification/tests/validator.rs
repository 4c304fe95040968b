use chess_core::pieces::{color_of_square, is_path_empty, Piece, PieceColor, PieceType};

fn piece(id: u32, color: PieceColor, kind: PieceType, x: u8, y: u8) -> Piece {
    Piece { id, color, piece_type: kind, x, y }
}

#[test]
fn own_color_target_is_illegal_for_every_kind() {
    let kinds = [
        PieceType::King,
        PieceType::Queen,
        PieceType::Bishop,
        PieceType::Knight,
        PieceType::Rook,
        PieceType::Pawn,
    ];
    // A friendly piece stands on the would-be destination; every kind must
    // refuse, even when the geometry fits.
    let targets = [(3u8, 4u8), (3, 3), (5, 5), (4, 6), (3, 2), (4, 2)];
    for (kind, target) in kinds.iter().zip(targets.iter()) {
        let mover = piece(0, PieceColor::White, *kind, 3, 2);
        let friend = piece(1, PieceColor::White, PieceType::Pawn, target.0, target.1);
        assert!(!mover.is_move_valid(*target, vec![mover, friend]));
    }
}

#[test]
fn knight_jumps_over_anything() {
    let knight = piece(0, PieceColor::White, PieceType::Knight, 0, 1);
    // Pieces on every straight-line square near the path are irrelevant.
    let blockers = vec![
        knight,
        piece(1, PieceColor::White, PieceType::Pawn, 1, 1),
        piece(2, PieceColor::Black, PieceType::Pawn, 1, 2),
        piece(3, PieceColor::White, PieceType::Pawn, 2, 1),
        piece(4, PieceColor::Black, PieceType::Pawn, 0, 2),
    ];
    assert!(knight.is_move_valid((2, 2), blockers));
    assert!(knight.is_move_valid((2, 2), vec![knight]));
}

#[test]
fn knight_shape_only() {
    let knight = piece(0, PieceColor::White, PieceType::Knight, 4, 4);
    let board = vec![knight];
    assert!(knight.is_move_valid((6, 5), board.clone()));
    assert!(knight.is_move_valid((6, 3), board.clone()));
    assert!(knight.is_move_valid((2, 5), board.clone()));
    assert!(knight.is_move_valid((5, 6), board.clone()));
    assert!(knight.is_move_valid((3, 2), board.clone()));
    assert!(!knight.is_move_valid((5, 5), board.clone()));
    assert!(!knight.is_move_valid((6, 4), board.clone()));
    assert!(!knight.is_move_valid((4, 4), board));
}

#[test]
fn rook_needs_clear_path() {
    let rook = piece(0, PieceColor::White, PieceType::Rook, 0, 0);
    let blocker = piece(1, PieceColor::Black, PieceType::Pawn, 0, 3);
    assert!(rook.is_move_valid((0, 7), vec![rook]));
    assert!(!rook.is_move_valid((0, 7), vec![rook, blocker]));
    // Capturing the blocker itself is fine; the interior is empty.
    assert!(rook.is_move_valid((0, 3), vec![rook, blocker]));
    // A rook does not move diagonally, and must actually move.
    assert!(!rook.is_move_valid((3, 3), vec![rook]));
    assert!(!rook.is_move_valid((0, 0), vec![rook]));
}

#[test]
fn bishop_blocked_at_first_step() {
    let bishop = piece(0, PieceColor::White, PieceType::Bishop, 0, 2);
    let friend = piece(1, PieceColor::White, PieceType::Pawn, 1, 3);
    assert!(!bishop.is_move_valid((2, 4), vec![bishop, friend]));
    assert!(bishop.is_move_valid((2, 4), vec![bishop]));
    assert!(!bishop.is_move_valid((2, 3), vec![bishop]));
}

#[test]
fn queen_straight_and_diagonal() {
    let queen = piece(0, PieceColor::White, PieceType::Queen, 3, 3);
    let board = vec![queen];
    assert!(queen.is_move_valid((3, 7), board.clone()));
    assert!(queen.is_move_valid((7, 3), board.clone()));
    assert!(queen.is_move_valid((6, 6), board.clone()));
    assert!(queen.is_move_valid((0, 6), board.clone()));
    assert!(!queen.is_move_valid((5, 4), board.clone()));
    assert!(!queen.is_move_valid((3, 3), board));
    let blocker = piece(1, PieceColor::Black, PieceType::Pawn, 5, 5);
    assert!(!queen.is_move_valid((6, 6), vec![queen, blocker]));
    assert!(queen.is_move_valid((5, 5), vec![queen, blocker]));
}

#[test]
fn king_single_steps_only() {
    let king = piece(0, PieceColor::White, PieceType::King, 4, 4);
    let board = vec![king];
    for target in [(5u8, 4u8), (3, 4), (4, 5), (4, 3), (5, 5), (5, 3), (3, 5), (3, 3)] {
        assert!(king.is_move_valid(target, board.clone()), "king to {:?}", target);
    }
    assert!(!king.is_move_valid((6, 4), board.clone()));
    assert!(!king.is_move_valid((4, 4), board.clone()));
    assert!(!king.is_move_valid((6, 6), board));
}

#[test]
fn white_pawn_moves() {
    let pawn = piece(0, PieceColor::White, PieceType::Pawn, 1, 4);
    let board = vec![pawn];
    // Single and double advance from the starting file.
    assert!(pawn.is_move_valid((2, 4), board.clone()));
    assert!(pawn.is_move_valid((3, 4), board.clone()));
    // Distance three is never a pawn move.
    assert!(!pawn.is_move_valid((4, 4), board.clone()));
    // Sideways or backwards never.
    assert!(!pawn.is_move_valid((1, 5), board.clone()));
    assert!(!pawn.is_move_valid((0, 4), board.clone()));
    // Double advance blocked by an intervening piece.
    let blocker = piece(1, PieceColor::Black, PieceType::Pawn, 2, 4);
    assert!(!pawn.is_move_valid((3, 4), vec![pawn, blocker]));
    // Double advance only from file 1.
    let advanced = piece(0, PieceColor::White, PieceType::Pawn, 2, 4);
    assert!(!advanced.is_move_valid((4, 4), vec![advanced]));
    // Straight advance onto an occupied square is refused.
    assert!(!pawn.is_move_valid((2, 4), vec![pawn, blocker]));
}

#[test]
fn white_pawn_captures_diagonally() {
    let pawn = piece(0, PieceColor::White, PieceType::Pawn, 1, 4);
    let enemy = piece(1, PieceColor::Black, PieceType::Pawn, 2, 5);
    assert!(pawn.is_move_valid((2, 5), vec![pawn, enemy]));
    // No capture onto an empty diagonal.
    assert!(!pawn.is_move_valid((2, 3), vec![pawn, enemy]));
    // No capture of a friend.
    let friend = piece(2, PieceColor::White, PieceType::Pawn, 2, 3);
    assert!(!pawn.is_move_valid((2, 3), vec![pawn, enemy, friend]));
}

#[test]
fn black_pawn_mirrors_white() {
    let pawn = piece(0, PieceColor::Black, PieceType::Pawn, 6, 4);
    let board = vec![pawn];
    assert!(pawn.is_move_valid((5, 4), board.clone()));
    assert!(pawn.is_move_valid((4, 4), board.clone()));
    assert!(!pawn.is_move_valid((7, 4), board.clone()));
    assert!(!pawn.is_move_valid((3, 4), board.clone()));
    let enemy = piece(1, PieceColor::White, PieceType::Pawn, 5, 3);
    assert!(pawn.is_move_valid((5, 3), vec![pawn, enemy]));
    let advanced = piece(0, PieceColor::Black, PieceType::Pawn, 5, 4);
    assert!(!advanced.is_move_valid((3, 4), vec![advanced]));
}

#[test]
fn pawn_direction_asymmetry() {
    // A white pawn can never decrease its file; a black pawn can never
    // increase it, whatever stands around.
    let white = piece(0, PieceColor::White, PieceType::Pawn, 3, 3);
    let black = piece(1, PieceColor::Black, PieceType::Pawn, 3, 5);
    let board = vec![white, black];
    for x in 0u8..3 {
        for y in 0u8..8 {
            assert!(!white.is_move_valid((x, y), board.clone()));
        }
    }
    for x in 4u8..8 {
        for y in 0u8..8 {
            assert!(!black.is_move_valid((x, y), board.clone()));
        }
    }
}

#[test]
fn path_empty_scans() {
    let pieces = vec![
        piece(0, PieceColor::White, PieceType::Rook, 2, 2),
        piece(1, PieceColor::Black, PieceType::Pawn, 2, 5),
        piece(2, PieceColor::Black, PieceType::Pawn, 5, 2),
        piece(3, PieceColor::White, PieceType::Pawn, 4, 4),
    ];
    // Same file, blocker at (2,5).
    assert!(!is_path_empty((2, 2), (2, 7), &pieces));
    assert!(is_path_empty((2, 2), (2, 5), &pieces));
    // Same rank, blocker at (5,2).
    assert!(!is_path_empty((2, 2), (7, 2), &pieces));
    // Diagonal, blocker at (4,4).
    assert!(!is_path_empty((2, 2), (6, 6), &pieces));
    assert!(is_path_empty((2, 2), (4, 4), &pieces));
    // Descending diagonal clear.
    assert!(is_path_empty((6, 0), (2, 4), &pieces));
    // A knight-shaped request reports clear: callers gate on geometry.
    assert!(is_path_empty((2, 2), (4, 3), &pieces));
}

#[test]
fn color_of_square_lookup() {
    let pieces = vec![
        piece(0, PieceColor::White, PieceType::Rook, 0, 0),
        piece(1, PieceColor::Black, PieceType::King, 7, 4),
    ];
    assert_eq!(color_of_square((0, 0), &pieces), Some(PieceColor::White));
    assert_eq!(color_of_square((7, 4), &pieces), Some(PieceColor::Black));
    assert_eq!(color_of_square((3, 3), &pieces), None);
}
