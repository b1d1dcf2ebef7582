use genius_square::pieces::PieceType;
use genius_square::solver::Solver;
use genius_square::state::{GameState, BORDER};

const ALL_TYPES: [PieceType; 9] = [
    PieceType::Square,
    PieceType::Bar4,
    PieceType::T,
    PieceType::Z,
    PieceType::L4,
    PieceType::Bar3,
    PieceType::L3,
    PieceType::Bar2,
    PieceType::Dot,
];

/// A blocker mask whose board has exactly one full tiling.
const UNIQUE_MASK: u64 = 4398048877060;

/// The mask of the worked example: a board with several tilings.
const DEMO_MASK: u64 = 35257386599434;

#[test]
fn empty_board_is_solvable() {
    let solver = Solver::new();
    let mut state = GameState::new(0);
    assert!(solver.solve(&mut state));
    assert!(state.is_solved());
    assert_eq!(state.history().len(), 9);
}

#[test]
fn solution_history_reconstructs_the_board() {
    let solver = Solver::new();
    let mut state = GameState::new(0);
    assert!(solver.solve(&mut state));
    let history = state.history();
    let mut rebuilt = BORDER;
    for (a, &placement) in history.iter().enumerate() {
        assert_eq!(placement & BORDER, 0);
        for &earlier in &history[..a] {
            assert_eq!(placement & earlier, 0);
        }
        rebuilt |= placement;
    }
    assert_eq!(rebuilt, state.board());
}

#[test]
fn failed_solve_restores_the_state() {
    let solver = Solver::new();
    let blocker = u64::MAX & !1;
    let mut state = GameState::new(blocker);
    assert!(!solver.solve(&mut state));
    assert_eq!(state.board(), blocker | BORDER);
    assert!(state.history().is_empty());
    assert!(!state.is_solved());
    for t in ALL_TYPES {
        assert!(state.is_available(t));
    }
}

#[test]
fn single_open_cell_is_unsolvable() {
    // Only one cell is empty: even the single-cell piece cannot lead to a
    // full tiling, because the eight larger pieces have nowhere to go.
    let solver = Solver::new();
    let mut state = GameState::new(u64::MAX & !1);
    assert!(!solver.solve(&mut state));
    let mut state = GameState::new(u64::MAX & !1);
    assert_eq!(solver.count_solns(&mut state), 0);
}

#[test]
fn fully_blocked_board_has_no_solution() {
    // No playable cell is empty, so the scan passes the last index without
    // placing anything while the inventory is still full.
    let solver = Solver::new();
    let mut state = GameState::new(u64::MAX);
    assert!(!solver.solve(&mut state));
    assert_eq!(state.history().len(), 0);
    let mut state = GameState::new(u64::MAX);
    assert_eq!(solver.count_solns(&mut state), 0);
}

#[test]
fn unique_solution_is_counted_once() {
    let solver = Solver::new();
    let mut state = GameState::new(UNIQUE_MASK);
    assert_eq!(solver.count_solns(&mut state), 1);
    assert_eq!(state.board(), UNIQUE_MASK | BORDER);
    assert!(state.history().is_empty());
    for t in ALL_TYPES {
        assert!(state.is_available(t));
    }
}

#[test]
fn unique_solution_board_is_solvable() {
    let solver = Solver::new();
    let mut state = GameState::new(UNIQUE_MASK);
    assert!(solver.solve(&mut state));
    assert!(state.is_solved());
    assert_eq!(state.history().len(), 9);
}

#[test]
fn demo_board_has_eleven_solutions() {
    let solver = Solver::new();
    let mut state = GameState::new(DEMO_MASK);
    assert!(solver.solve(&mut state));
    let mut state = GameState::new(DEMO_MASK);
    assert_eq!(solver.count_solns(&mut state), 11);
    assert_eq!(state.board(), DEMO_MASK | BORDER);
}

#[test]
fn count_is_positive_exactly_when_solve_succeeds() {
    let solver = Solver::new();
    for mask in [DEMO_MASK, UNIQUE_MASK, u64::MAX & !1, u64::MAX] {
        let mut state = GameState::new(mask);
        let solved = solver.solve(&mut state);
        let mut state = GameState::new(mask);
        let count = solver.count_solns(&mut state);
        assert_eq!(count >= 1, solved);
    }
}

#[test]
fn empty_board_count_and_restoration() {
    let solver = Solver::new();
    let mut state = GameState::new(0);
    let count = solver.count_solns(&mut state);
    assert_eq!(count, 2712456);
    assert_eq!(state.board(), BORDER);
    assert!(state.history().is_empty());
    for t in ALL_TYPES {
        assert!(state.is_available(t));
    }
}
