//! Parsing edge cases, error taxonomy, obstruction scenarios, and the
//! round-trip and atomicity properties on concrete games.

use eliasfl_chess::{Color, Game, GameState, MoveError, ParseError, Piece, Position, PromotionError};

fn idx(file: u8, rank: u8) -> usize {
    (rank as usize - 1) * 8 + (file as usize - 1)
}

#[test]
fn parse_rejects_malformed_text() {
    assert_eq!(
        Position::from_string(String::new()),
        Err(ParseError::InvalidFormat)
    );
    assert_eq!(
        Position::from_string("a".to_string()),
        Err(ParseError::InvalidFormat)
    );
    assert_eq!(
        Position::from_string("i2".to_string()),
        Err(ParseError::InvalidFile)
    );
    assert_eq!(
        Position::from_string("k15".to_string()),
        Err(ParseError::InvalidFile)
    );
    assert_eq!(
        Position::from_string("a9".to_string()),
        Err(ParseError::InvalidRank)
    );
    assert_eq!(
        Position::from_string("a0".to_string()),
        Err(ParseError::InvalidRank)
    );
    assert_eq!(
        Position::from_string("e15".to_string()),
        Err(ParseError::InvalidRank)
    );
    assert_eq!(
        Position::from_string("ex".to_string()),
        Err(ParseError::InvalidRank)
    );
    assert_eq!(
        Position::from_string("é2".to_string()),
        Err(ParseError::InvalidFile)
    );
}

#[test]
fn parse_accepts_integer_rank_forms() {
    // The rank is read as an integer, so a leading zero or an explicit
    // plus sign are accepted, as is an uppercase file letter.
    assert_eq!(
        Position::from_string("B3".to_string()),
        Ok(Position { file: 2, rank: 3 })
    );
    assert_eq!(
        Position::from_string("a08".to_string()),
        Ok(Position { file: 1, rank: 8 })
    );
    assert_eq!(
        Position::from_string("a+8".to_string()),
        Ok(Position { file: 1, rank: 8 })
    );
    assert_eq!(
        Position::from_string("a++8".to_string()),
        Err(ParseError::InvalidRank)
    );
}

#[test]
fn square_text_round_trips() {
    for file in 1u8..=8 {
        for rank in 1u8..=8 {
            let p = Position { file, rank };
            let text = p.to_string();
            assert_eq!(text.len(), 2);
            assert_eq!(Position::from_string(text.clone()), Ok(p));
            assert_eq!(Position::from_string(text.clone()).unwrap().to_string(), text);
        }
    }
    // An uppercase file normalizes to lowercase.
    let p = Position::from_string("E4".to_string()).unwrap();
    assert_eq!(p.to_string(), "e4".to_string());
}

#[test]
fn knight_moves_from_start() {
    let game = Game::new();
    assert_eq!(
        game.get_possible_moves("b1".to_string()),
        Some(vec!["a3".to_string(), "c3".to_string()])
    );
}

#[test]
fn pawn_capture_listed_in_order() {
    let mut game = Game::new();
    game.make_move("e2".to_string(), "e4".to_string()).unwrap();
    game.make_move("d7".to_string(), "d5".to_string()).unwrap();
    // The e4 pawn may push to e5 or capture on d5, in textual order.
    assert_eq!(
        game.get_possible_moves("e4".to_string()),
        Some(vec!["d5".to_string(), "e5".to_string()])
    );
}

#[test]
fn inactive_color_query_ignores_king_safety() {
    // Querying the side not on move is informational: it still lists
    // pseudo-legal moves, without the self-check filter.
    let game = Game::new();
    assert_eq!(
        game.get_possible_moves("e7".to_string()),
        Some(vec!["e5".to_string(), "e6".to_string()])
    );
}

#[test]
fn sliding_pieces_blocked_at_start() {
    let mut game = Game::new();
    // Rook a1 cannot jump the a2 pawn; queen d1 cannot jump the e2
    // pawn on its diagonal.
    assert_eq!(
        game.make_move("a1".to_string(), "a3".to_string()),
        Err(MoveError::IllegalDestination)
    );
    assert_eq!(
        game.make_move("d1".to_string(), "h5".to_string()),
        Err(MoveError::IllegalDestination)
    );
    // A knight is never rejected for obstruction.
    assert!(game.make_move("g1".to_string(), "f3".to_string()).is_ok());
}

#[test]
fn rejected_moves_leave_game_unchanged() {
    let mut game = Game::new();
    let before = game.clone();

    assert_eq!(
        game.make_move("e2".to_string(), "e5".to_string()),
        Err(MoveError::IllegalDestination)
    );
    assert_eq!(game, before);

    assert_eq!(
        game.make_move("e7".to_string(), "e6".to_string()),
        Err(MoveError::WrongTurn)
    );
    assert_eq!(game, before);

    assert_eq!(
        game.make_move("e4".to_string(), "e5".to_string()),
        Err(MoveError::NoPieceAtSource)
    );
    assert_eq!(game, before);

    assert_eq!(
        game.make_move("zz".to_string(), "e4".to_string()),
        Err(MoveError::InvalidPosition)
    );
    assert_eq!(game, before);
}

#[test]
fn accepted_move_is_a_listed_legal_move() {
    let mut game = Game::new();
    let listed = game.get_possible_moves("g1".to_string()).unwrap();
    assert!(listed.contains(&"f3".to_string()));
    assert!(game.make_move("g1".to_string(), "f3".to_string()).is_ok());
}

#[test]
fn capturing_a_king_is_refused() {
    let mut game = Game::new();
    // Put a white rook on e2 and clear the e7 pawn: the rook now has a
    // clear pseudo-legal path to the black king on e8.
    game.board[idx(5, 2)] = Some(Piece::Rook(Color::White));
    game.board[idx(5, 7)] = None;
    assert_eq!(
        game.make_move("e2".to_string(), "e8".to_string()),
        Err(MoveError::CannotCaptureKing)
    );
}

#[test]
fn moving_a_pinned_piece_is_self_check() {
    let mut game = Game::new();
    game.make_move("e2".to_string(), "e4".to_string()).unwrap();
    game.make_move("d7".to_string(), "d5".to_string()).unwrap();
    game.make_move("f1".to_string(), "b5".to_string()).unwrap();
    // Black blocks the check; the knight on c6 is now pinned.
    game.make_move("b8".to_string(), "c6".to_string()).unwrap();
    game.make_move("a2".to_string(), "a3".to_string()).unwrap();
    assert_eq!(
        game.make_move("c6".to_string(), "d4".to_string()),
        Err(MoveError::SelfCheck)
    );
    // The pinned knight is not among the legal moves either.
    assert_eq!(
        game.get_possible_moves("c6".to_string()),
        Some(Vec::<String>::new())
    );
}

#[test]
fn check_is_reported_after_a_checking_move() {
    let mut game = Game::new();
    game.make_move("e2".to_string(), "e4".to_string()).unwrap();
    game.make_move("d7".to_string(), "d5".to_string()).unwrap();
    game.make_move("f1".to_string(), "b5".to_string()).unwrap();
    assert_eq!(game.state, GameState::Check);
    assert_eq!(game.get_game_state(), GameState::Check);
    assert_eq!(game.active_color, Color::Black);
}

#[test]
fn promotion_defaults_to_queen() {
    let mut game = Game::new();
    let moves = [
        ("a2", "a4"),
        ("b7", "b5"),
        ("a4", "b5"),
        ("b8", "a6"),
        ("b5", "b6"),
        ("a6", "b4"),
        ("b6", "b7"),
        ("b4", "d5"),
        ("b7", "b8"),
    ];
    for (from, to) in moves {
        game.make_move(from.to_string(), to.to_string()).unwrap();
    }
    assert_eq!(
        game.piece_at(&Position { file: 2, rank: 8 }),
        Some(Piece::Queen(Color::White))
    );
}

#[test]
fn promotion_name_is_case_insensitive() {
    let mut game = Game::new();
    game.set_promotion("KNIGHT".to_string()).unwrap();
    assert!(game.promotion.contains(&Piece::Knight(Color::White)));
    game.set_promotion("RoOk".to_string()).unwrap();
    assert!(game.promotion.contains(&Piece::Rook(Color::White)));
}

#[test]
fn invalid_promotion_name_is_rejected() {
    let mut game = Game::new();
    let before = game.promotion;
    assert_eq!(
        game.set_promotion("king".to_string()),
        Err(PromotionError::InvalidPieceName)
    );
    assert_eq!(
        game.set_promotion("pawn".to_string()),
        Err(PromotionError::InvalidPieceName)
    );
    assert_eq!(
        game.set_promotion("".to_string()),
        Err(PromotionError::InvalidPieceName)
    );
    assert_eq!(game.promotion, before);
}

#[test]
fn piece_symbols_are_distinct() {
    let pieces = [
        Piece::King(Color::White),
        Piece::King(Color::Black),
        Piece::Queen(Color::White),
        Piece::Queen(Color::Black),
        Piece::Rook(Color::White),
        Piece::Rook(Color::Black),
        Piece::Bishop(Color::White),
        Piece::Bishop(Color::Black),
        Piece::Knight(Color::White),
        Piece::Knight(Color::Black),
        Piece::Pawn(Color::White),
        Piece::Pawn(Color::Black),
    ];
    for (i, a) in pieces.iter().enumerate() {
        for (j, b) in pieces.iter().enumerate() {
            assert_eq!(i == j, a.symbol() == b.symbol());
        }
    }
    assert_eq!(Piece::King(Color::White).symbol(), '♚');
}

#[test]
fn geometric_destinations_ignore_occupancy() {
    let rook = Piece::Rook(Color::White);
    let from = Position { file: 1, rank: 1 };
    let dests = rook.valid_destinations(&from);
    // The whole first file and first rank, except a1 itself.
    assert_eq!(dests.len(), 14);
    assert!(dests.contains(&Position { file: 1, rank: 8 }));
    assert!(dests.contains(&Position { file: 8, rank: 1 }));
    assert!(!dests.contains(&from));

    let king = Piece::King(Color::Black);
    let center = Position { file: 4, rank: 4 };
    assert_eq!(king.valid_destinations(&center).len(), 8);
    let corner_king = king.valid_destinations(&Position { file: 1, rank: 1 });
    assert_eq!(corner_king.len(), 3);
}
