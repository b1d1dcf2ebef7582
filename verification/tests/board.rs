use genius_square::pieces::PieceType;
use genius_square::state::{GameState, BORDER};

const ALL_TYPES: [PieceType; 9] = [
    PieceType::Square,
    PieceType::Bar4,
    PieceType::T,
    PieceType::Z,
    PieceType::L4,
    PieceType::Bar3,
    PieceType::L3,
    PieceType::Bar2,
    PieceType::Dot,
];

#[test]
fn new_board_combines_blockers_with_border() {
    let state = GameState::new(0);
    assert_eq!(state.board(), BORDER);
    let state = GameState::new(0b101);
    assert_eq!(state.board(), 0b101 | BORDER);
    assert!(state.history().is_empty());
}

#[test]
fn out_of_range_blocker_bits_are_kept() {
    let blocker = 1u64 << 63;
    let state = GameState::new(blocker);
    assert_eq!(state.board(), blocker | BORDER);
}

#[test]
fn fresh_board_has_every_piece_available() {
    let state = GameState::new(0);
    assert!(!state.is_solved());
    for t in ALL_TYPES {
        assert!(state.is_available(t));
    }
}

#[test]
fn board_is_solved_once_every_piece_is_used() {
    let mut state = GameState::new(0);
    for t in ALL_TYPES {
        assert!(!state.is_solved());
        state.mark_piece_as_used(t);
        assert!(!state.is_available(t));
    }
    assert!(state.is_solved());
}

#[test]
fn marking_available_undoes_marking_used() {
    let mut state = GameState::new(0);
    state.mark_piece_as_used(PieceType::Z);
    assert!(!state.is_available(PieceType::Z));
    assert!(state.is_available(PieceType::T));
    state.mark_piece_as_available(PieceType::Z);
    for t in ALL_TYPES {
        assert!(state.is_available(t));
    }
}

#[test]
fn marking_an_unused_piece_again_is_a_no_op() {
    let mut state = GameState::new(0);
    state.mark_piece_as_used(PieceType::Dot);
    state.mark_piece_as_used(PieceType::Dot);
    assert!(!state.is_available(PieceType::Dot));
    state.mark_piece_as_available(PieceType::Dot);
    assert!(state.is_available(PieceType::Dot));
}

#[test]
fn history_getter_returns_the_placements() {
    let mut state = GameState::new(0);
    state.history.push(771);
    state.history.push(15 << 3);
    assert_eq!(state.history(), vec![771, 15 << 3]);
}
