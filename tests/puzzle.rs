use hexclue::board::Board;
use hexclue::cell::{Cell, Clue, Hint};
use hexclue::generator::{complexity, generate, generate_from, generate_good, no_solved_clues};
use hexclue::heart::HeartGenerator;
use hexclue::puzzle::{Generator, Puzzle};
use hexclue::refiner::Refiner;
use hexclue::ring::Ring;
use hexclue::solver::Solver;
use hexclue::validator::{
    MaximumSolvedClues, MaximumSolvedPositions, RequireClueSolving, RequireHintSolving, Strategy,
    Validator, ValidatorStrategy,
};
use hexclue::{Direction, Position};
use rand::rngs::StdRng;
use rand::SeedableRng;

fn rings_board() -> Board {
    let mut board = Board::new(2).unwrap();
    board.insert(Position::zero(), Cell::Red);
    for position in Ring::zero(1).unwrap().positions() {
        board.insert(position, Cell::Green);
    }
    for position in Ring::zero(2).unwrap().positions() {
        board.insert(position, Cell::Blue);
    }
    board
}

#[test]
fn test_solver() {
    let mut board = Board::new(2).unwrap();

    board.insert(Position::zero(), Cell::Red);

    for position in Ring::zero(1).unwrap().positions() {
        board.insert(position, Cell::Green);
    }

    for position in Ring::zero(2).unwrap().positions() {
        board.insert(position, Cell::Blue);
    }

    let mut puzzle = Puzzle::with_clues(board);
    puzzle.clear();
    assert!(puzzle.board().cells().is_empty());
    let mut solver = Solver::new(puzzle);
    assert!(solver.solve());
}

#[test]
fn solved_rings_match_the_solution() {
    let board = rings_board();
    let mut puzzle = Puzzle::with_clues(board.clone());
    puzzle.clear();
    let mut solver = Solver::new(puzzle);
    assert!(solver.solve());
    for (position, cell) in board.cells() {
        assert_eq!(solver.solution().get(position), Some(cell));
    }
}

#[test]
fn solving_twice_changes_nothing() {
    let mut rng = StdRng::seed_from_u64(7);
    for _ in 0..5 {
        let mut puzzle = Puzzle::with_clues(Board::random(&mut rng, 3).unwrap());
        puzzle.clear();
        let mut solver = Solver::new(puzzle);
        let first = solver.solve();
        let cells = solver.solution().cells();
        let second = solver.solve();
        assert_eq!(first, second);
        assert_eq!(cells, solver.solution().cells());
        assert!(!solver.solve_hints());
        assert!(!solver.solve_clues());
    }
}

#[test]
fn clue_counts_match_assigned_cells() {
    let mut board = Board::new(2).unwrap();
    board.insert(Position::new((1, -1, 0)).unwrap(), Cell::Red);
    board.insert(Position::new((-1, 1, 0)).unwrap(), Cell::Blue);
    board.insert(Position::new((0, 0, 0)).unwrap(), Cell::Blue);
    let clues = board.clues();
    assert_eq!(clues.len(), 15);
    for ((direction, distance), clue) in clues {
        let segment = board.segment(distance, direction).unwrap();
        let assigned = segment.iter().filter(|(_, cell)| cell.is_some()).count() as u32;
        assert_eq!(clue.red() + clue.green() + clue.blue(), assigned);
        assert!(assigned as usize <= segment.len());
    }
    let middle = board.segment(0, Direction::XY).unwrap();
    let clue = Clue::from_cells(&middle.iter().filter_map(|(_, c)| *c).collect::<Vec<_>>());
    assert_eq!(clue, Clue::new(1, 0, 2));
}

#[test]
fn board_segments_cover_the_board() {
    let board = rings_board();
    let segments = board.segments(Direction::YZ);
    assert_eq!(segments.len(), 5);
    let total: usize = segments.iter().map(|(_, s)| s.len()).sum();
    assert_eq!(total, 19);
    assert_eq!(board.normalized_segments().len(), 15);
    assert!(board.is_solved());
    assert!(!Board::new(2).unwrap().is_solved());
}

#[test]
fn hint_and_only_narrows() {
    let hints = [
        Hint::any(),
        Hint::none(),
        Hint(true, false, true),
        Hint(false, true, false),
    ];
    let clues = [Clue::new(0, 2, 1), Clue::zero(), Clue::new(3, 3, 3)];
    for h in hints {
        for c in clues {
            let n = h.and(c.hint());
            for cell in Cell::all() {
                assert!(!n.cell(cell) || h.cell(cell));
            }
        }
    }
    assert_eq!(Hint::any().and(Clue::new(0, 2, 0).hint()).solution(), Some(Cell::Green));
    assert_eq!(Hint(true, true, false).solution(), None);
    assert_eq!(Hint(false, true, true).clue(), Clue::new(0, 1, 1));
}

#[test]
fn clue_arithmetic() {
    let a = Clue::new(3, 1, 2);
    let b = Clue::new(1, 2, 2);
    assert_eq!(a.add(b), Clue::new(4, 3, 4));
    assert_eq!(a.sub(b), Clue::new(2, 0, 0));
    assert_eq!(a.count(), 6);
    assert!(Clue::zero().is_empty());
    assert!(!a.is_solved());
    assert!(Clue::new(0, 4, 0).is_solved());
    assert_eq!(a.cell(Cell::Blue), 2);
}

#[test]
fn clue_min_and_max_cells() {
    assert_eq!(Clue::new(3, 1, 2).min_cell(), Some(Cell::Green));
    assert_eq!(Clue::new(3, 1, 2).max_cell(), Some(Cell::Red));
    assert_eq!(Clue::new(2, 0, 2).min_cell(), Some(Cell::Red));
    assert_eq!(Clue::new(2, 0, 2).max_cell(), Some(Cell::Blue));
    assert_eq!(Clue::new(0, 0, 0).min_cell(), None);
    assert_eq!(Clue::new(0, 0, 0).max_cell(), None);
}

#[test]
fn random_choices_respect_hints() {
    let mut rng = StdRng::seed_from_u64(3);
    for _ in 0..20 {
        assert_eq!(Hint(false, true, false).random(&mut rng), Some(Cell::Green));
        let c = Hint(true, false, true).random(&mut rng).unwrap();
        assert!(c == Cell::Red || c == Cell::Blue);
        let _ = Cell::random(&mut rng);
    }
    assert_eq!(Hint::none().random(&mut rng), None);
}

#[test]
fn random_board_is_full() {
    let mut rng = StdRng::seed_from_u64(11);
    let board = Board::random(&mut rng, 3).unwrap();
    assert!(board.is_solved());
    assert_eq!(board.cells().len(), 37);
    assert!(Board::random(&mut rng, 0).is_err());
}

#[test]
fn puzzle_clue_table() {
    let board = rings_board();
    let puzzle = Puzzle::with_clues(board.clone());
    assert_eq!(puzzle.clues(), board.clues());
    assert_eq!(puzzle.clue(Direction::XY, 0), Some(Clue::new(1, 2, 2)));
    assert_eq!(puzzle.clue(Direction::XY, -2), Some(Clue::new(0, 0, 3)));
    assert_eq!(puzzle.clue(Direction::XZ, 0), None);
    assert_eq!(puzzle.clue(Direction::YZ, 3), None);

    let listed = Puzzle::new(
        Board::new(2).unwrap(),
        vec![
            ((Direction::YZ, 1), Clue::new(1, 1, 1)),
            ((Direction::XZ, 0), Clue::new(9, 9, 9)),
            ((Direction::YZ, 1), Clue::new(2, 0, 2)),
        ],
    );
    assert_eq!(listed.clue(Direction::YZ, 1), Some(Clue::new(2, 0, 2)));
    assert_eq!(listed.clue(Direction::XY, 0), Some(Clue::zero()));
}

#[test]
fn computed_clues_subtract_placed_cells() {
    let board = rings_board();
    let mut puzzle = Puzzle::with_clues(board);
    puzzle.clear();
    puzzle.mut_board().insert(Position::zero(), Cell::Red);
    let solver = Solver::new(puzzle);
    let clues = solver.computed_clues();
    let centre = clues
        .iter()
        .find(|(key, _)| *key == (Direction::YZ, 0))
        .unwrap();
    assert_eq!(centre.1, Clue::new(0, 2, 2));
    let hints = solver.computed_hints();
    assert_eq!(hints.len(), 19);
    assert_eq!(hints[0].0, Position::zero());
}

#[test]
fn validator_strategies() {
    let board = rings_board();
    let mut puzzle = Puzzle::with_clues(board);
    puzzle.clear();
    assert_eq!(MaximumSolvedPositions(0).is_valid(&puzzle), Some(true));
    puzzle.mut_board().insert(Position::zero(), Cell::Red);
    assert_eq!(MaximumSolvedPositions(0).is_valid(&puzzle), Some(false));
    assert_eq!(MaximumSolvedPositions(1).is_valid(&puzzle), Some(true));
    assert!(MaximumSolvedClues(100).is_valid(&puzzle) == Some(true));
    let clue = RequireClueSolving(true).is_valid(&puzzle);
    let not_clue = RequireClueSolving(false).is_valid(&puzzle);
    assert_eq!(clue, not_clue.map(|b| !b));
    let _ = RequireHintSolving(true).is_valid(&puzzle);
    let validator = Validator::new(vec![
        Strategy::SolvedPositions(MaximumSolvedPositions(0)),
        Strategy::SolvedClues(MaximumSolvedClues(100)),
    ]);
    assert!(!validator.is_valid(&puzzle));
    assert!(!validator.is_not_invalid(&puzzle));
    let lenient = Validator::new(vec![Strategy::SolvedPositions(MaximumSolvedPositions(5))]);
    assert!(lenient.is_valid(&puzzle));
    assert!(lenient.is_not_invalid(&puzzle));
}

#[test]
fn generated_puzzles_need_clue_solving() {
    let mut rng = StdRng::seed_from_u64(2024);
    let puzzle = generate_good(&mut rng, 4, 500).expect("a puzzle within 500 attempts");
    let solver = Solver::new(puzzle.clone());
    assert!(no_solved_clues(&solver));
    assert_eq!(RequireClueSolving(true).is_valid(&puzzle), Some(true));
    let mut resolver = Solver::new(puzzle);
    assert!(resolver.solve());
}

#[test]
fn generate_rejects_or_accepts() {
    let mut rng = StdRng::seed_from_u64(5);
    for _ in 0..20 {
        if let Some(puzzle) = generate(&mut rng, 3) {
            let mut solver = Solver::new(puzzle);
            assert!(solver.solve());
        }
    }
}

#[test]
fn refiner_returns_accepted_puzzles() {
    let mut rng = StdRng::seed_from_u64(99);
    let validator = Validator::new(vec![
        Strategy::ClueSolving(RequireClueSolving(true)),
        Strategy::SolvedClues(MaximumSolvedClues(0)),
    ]);
    let refiner = Refiner::new(validator);
    let generator = Board::generator(3);
    if let Some(puzzle) = refiner.refined(&mut rng, &generator, 200) {
        assert_eq!(RequireClueSolving(true).is_valid(&puzzle), Some(true));
        assert_eq!(MaximumSolvedClues(0).is_valid(&puzzle), Some(true));
    }
    let solution = generator.generate(&mut rng);
    if let Some(puzzle) = Refiner::new(Validator::new(vec![])).refine(solution.clone()) {
        for (position, cell) in puzzle.board().cells() {
            assert_eq!(solution.board().get(position), Some(cell));
        }
    }
}

#[test]
fn heart_board_is_red_inside() {
    let mut rng = StdRng::seed_from_u64(1);
    let puzzle = HeartGenerator.generate(&mut rng);
    let board = puzzle.board();
    assert!(board.is_solved());
    assert_eq!(board.get(Position::new((0, 0, 0)).unwrap()), Some(Cell::Red));
    assert_eq!(board.get(Position::new((1, -4, 3)).unwrap()), Some(Cell::Red));
    assert_ne!(board.get(Position::new((5, -5, 0)).unwrap()), Some(Cell::Red));
    let reds = board.cells().iter().filter(|(_, c)| *c == Cell::Red).count();
    assert_eq!(reds, 31);
}

#[test]
fn hinted_generator_follows_hints() {
    let mut rng = StdRng::seed_from_u64(4);
    let hints = vec![
        (Position::zero(), Hint(false, false, true)),
        (Position::new((1, -1, 0)).unwrap(), Hint(true, false, false)),
    ];
    let board = Board::random_from_hints(&mut rng, 1, hints.clone()).unwrap();
    assert_eq!(board.get(Position::zero()), Some(Cell::Blue));
    assert_eq!(board.get(Position::new((1, -1, 0)).unwrap()), Some(Cell::Red));
    assert_eq!(board.cells().len(), 2);
    let puzzle = Board::generator_from_hints(1, hints).generate(&mut rng);
    assert_eq!(puzzle.board().cells().len(), 2);
    let from = Board::from_cells(1, vec![(Position::zero(), Cell::Red), (Position::zero(), Cell::Green)]).unwrap();
    assert_eq!(from.get(Position::zero()), Some(Cell::Green));
}

#[test]
fn generate_from_rejects_settled_clues() {
    assert!(generate_from(rings_board()).is_none());
    let mut rng = StdRng::seed_from_u64(12);
    let board = Board::random(&mut rng, 4).unwrap();
    if let Some(puzzle) = generate_from(board.clone()) {
        for (position, cell) in puzzle.board().cells() {
            assert_eq!(board.get(position), Some(cell));
        }
    }
}

#[test]
fn solver_never_contradicts_the_solution() {
    let mut rng = StdRng::seed_from_u64(31);
    for _ in 0..10 {
        let board = Board::random(&mut rng, 3).unwrap();
        let mut puzzle = Puzzle::with_clues(board.clone());
        puzzle.clear();
        let mut solver = Solver::new(puzzle);
        solver.solve();
        for (position, cell) in solver.solution().cells() {
            assert_eq!(board.get(position), Some(cell));
        }
    }
}

#[test]
fn complexity_counts_passes() {
    let board = rings_board();
    let full = Puzzle::with_clues(board);
    assert_eq!(complexity(&full), Some(0));
    let mut cleared = full.clone();
    cleared.clear();
    let score = complexity(&cleared).unwrap();
    assert!(score >= 1);
    let mut one = cleared.clone();
    one.mut_board().insert(Position::zero(), Cell::Red);
    assert!(complexity(&one).is_some());
}

#[test]
fn later_hint_wins() {
    let mut rng = StdRng::seed_from_u64(8);
    let hints = vec![
        (Position::zero(), Hint(true, false, false)),
        (Position::zero(), Hint(false, false, true)),
    ];
    let board = Board::random_from_hints(&mut rng, 1, hints).unwrap();
    assert_eq!(board.get(Position::zero()), Some(Cell::Blue));
    assert_eq!(board.cells().len(), 1);
}

#[test]
fn generators_produce_full_boards() {
    let mut rng = StdRng::seed_from_u64(21);
    let puzzle = Board::generator(3).generate(&mut rng);
    assert!(puzzle.board().is_solved());
    assert_eq!(puzzle.board().hexagon().radius(), 3);
    assert_eq!(puzzle.clues(), puzzle.board().clues());
    let heart = HeartGenerator.generate(&mut rng);
    assert_eq!(heart.clues(), heart.board().clues());
    assert!(heart.board().is_solved());
}
