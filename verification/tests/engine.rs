use minesweeper::board::Board;
use minesweeper::board::CellState;
use minesweeper::board::GameError;
use minesweeper::board::Status;
use minesweeper::rng::Prng;

fn count_state(b: &Board, st: CellState) -> usize {
    b.cells.iter().filter(|c| c.state == st).count()
}

#[test]
fn new_board_is_fresh() {
    let b = Board::new(9, 9, 10, 7).unwrap();
    assert_eq!(b.width, 9);
    assert_eq!(b.height, 9);
    assert_eq!(b.mine_count, 10);
    assert_eq!(b.status, Status::NotStarted);
    assert_eq!(b.flag_count, 0);
    assert_eq!(b.revealed_count, 0);
    assert_eq!(b.elapsed_time, 0);
    assert_eq!(b.cells.len(), 81);
    assert!(b.cells.iter().all(|c| !c.is_mine && c.adjacent == 0 && c.state == CellState::Hidden));
}

#[test]
fn new_rejects_bad_configurations() {
    assert_eq!(Board::new(0, 5, 1, 0).unwrap_err(), GameError::InvalidConfiguration);
    assert_eq!(Board::new(5, 0, 1, 0).unwrap_err(), GameError::InvalidConfiguration);
    assert_eq!(Board::new(5, 5, 0, 0).unwrap_err(), GameError::InvalidConfiguration);
    assert_eq!(Board::new(5, 5, 25, 0).unwrap_err(), GameError::InvalidConfiguration);
    assert_eq!(Board::new(5000, 5, 1, 0).unwrap_err(), GameError::InvalidConfiguration);
}

#[test]
fn reset_with_too_many_mines_fails_and_keeps_board() {
    let mut b = Board::new(9, 9, 10, 7).unwrap();
    b.reveal_at(4, 4).unwrap();
    let snapshot_status = b.status;
    let r = b.reset(5, 5, 26);
    assert_eq!(r.unwrap_err(), GameError::InvalidConfiguration);
    assert_eq!(b.width, 9);
    assert_eq!(b.height, 9);
    assert_eq!(b.status, snapshot_status);
}

#[test]
fn reset_replaces_board() {
    let mut b = Board::new(9, 9, 10, 7).unwrap();
    b.reveal_at(4, 4).unwrap();
    b.reset(5, 5, 24).unwrap();
    assert_eq!(b.width, 5);
    assert_eq!(b.height, 5);
    assert_eq!(b.mine_count, 24);
    assert_eq!(b.status, Status::NotStarted);
    assert_eq!(b.elapsed_time, 0);
    assert_eq!(b.cells.len(), 25);
}

#[test]
fn first_reveal_never_loses() {
    for seed in 0..20u64 {
        let mut b = Board::new(9, 9, 10, seed).unwrap();
        b.reveal_at(4, 4).unwrap();
        assert_ne!(b.status, Status::Lost);
        assert_eq!(b.cells[4 * 9 + 4].state, CellState::Revealed);
        let mines = b.cells.iter().filter(|c| c.is_mine).count();
        assert_eq!(mines, 10);
        // with 81 - 9 >= 10 cells to spare, the whole neighborhood is safe
        for dr in -1i64..=1 {
            for dc in -1i64..=1 {
                let idx = ((4 + dr) * 9 + (4 + dc)) as usize;
                assert!(!b.cells[idx].is_mine);
            }
        }
    }
}

#[test]
fn first_reveal_on_crowded_board_spares_only_target() {
    // 2x2 with 3 mines: fewer than nine cells can stay free
    for seed in 0..10u64 {
        let mut b = Board::new(2, 2, 3, seed).unwrap();
        b.reveal_at(0, 0).unwrap();
        assert_ne!(b.status, Status::Lost);
        assert!(!b.cells[0].is_mine);
        assert_eq!(b.cells.iter().filter(|c| c.is_mine).count(), 3);
    }
}

#[test]
fn adjacency_counts_are_exact() {
    // mine at the center of 3x3: every other cell sees exactly one
    let mines = vec![(1usize, 1usize)];
    let b = Board::with_mines(3, 3, &mines, 0).unwrap();
    for i in 0..9 {
        if i == 4 {
            assert!(b.cells[i].is_mine);
        } else {
            assert_eq!(b.cells[i].adjacent, 1);
        }
    }
}

#[test]
fn counters_track_flags_and_reveals() {
    let mines = vec![(2usize, 2usize)];
    let mut b = Board::with_mines(3, 3, &mines, 0).unwrap();
    assert!(b.toggle_flag(2, 2).unwrap());
    assert!(b.toggle_flag(0, 1).unwrap());
    assert_eq!(b.flag_count, 2);
    assert_eq!(b.flag_count, count_state(&b, CellState::Flagged));
    assert!(!b.toggle_flag(0, 1).unwrap());
    assert_eq!(b.flag_count, 1);
    assert_eq!(b.flag_count, count_state(&b, CellState::Flagged));
    b.reveal_at(0, 0).unwrap();
    assert_eq!(b.revealed_count, count_state(&b, CellState::Revealed));
    assert_eq!(b.flag_count, count_state(&b, CellState::Flagged));
}

#[test]
fn zero_region_reveal_wins_the_whole_board() {
    // mine at (2,2); (0,0) has no adjacent mine, so its flood reveals
    // everything safe and wins
    let mines = vec![(2usize, 2usize)];
    let mut b = Board::with_mines(3, 3, &mines, 0).unwrap();
    let changed = b.reveal_at(0, 0).unwrap();
    assert_eq!(changed.len(), 8);
    for i in 0..9 {
        if i == 8 {
            assert!(b.cells[i].state != CellState::Revealed);
        } else {
            assert_eq!(b.cells[i].state, CellState::Revealed);
        }
    }
    assert_eq!(b.status, Status::Won);
    assert_eq!(b.revealed_count, 8);
}

#[test]
fn numbered_reveal_opens_exactly_one_cell() {
    let mines = vec![(0usize, 0usize)];
    let mut b = Board::with_mines(3, 3, &mines, 0).unwrap();
    // (1,1) touches the mine, so its count is positive
    let changed = b.reveal_at(1, 1).unwrap();
    assert_eq!(changed, vec![4usize]);
    assert_eq!(b.cells[4].state, CellState::Revealed);
    assert_eq!(b.revealed_count, 1);
    assert_eq!(b.status, Status::InProgress);
}

#[test]
fn flood_never_reveals_a_mine_and_never_repeats() {
    let mines = vec![(0usize, 0usize), (4usize, 4usize)];
    let mut b = Board::with_mines(5, 5, &mines, 0).unwrap();
    let changed = b.reveal_at(0, 4).unwrap();
    let mut seen = changed.clone();
    seen.sort();
    let before = seen.len();
    seen.dedup();
    assert_eq!(seen.len(), before, "a cell was revealed twice");
    for idx in &changed {
        assert!(!b.cells[*idx].is_mine);
        assert_eq!(b.cells[*idx].state, CellState::Revealed);
    }
}

#[test]
fn revealing_a_mine_loses_and_shows_all_mines() {
    let mines = vec![(0usize, 0usize), (2usize, 2usize)];
    let mut b = Board::with_mines(3, 3, &mines, 0).unwrap();
    let changed = b.reveal_at(2, 2).unwrap();
    assert_eq!(b.status, Status::Lost);
    assert_eq!(b.cells[8].state, CellState::Exploded);
    assert_eq!(b.cells[0].state, CellState::Revealed);
    assert_eq!(changed.len(), 2);
    // every safe cell is untouched
    for i in 1..8 {
        assert_eq!(b.cells[i].state, CellState::Hidden);
    }
}

#[test]
fn finished_game_ignores_further_input() {
    let mines = vec![(2usize, 2usize)];
    let mut b = Board::with_mines(3, 3, &mines, 0).unwrap();
    b.reveal_at(2, 2).unwrap();
    assert_eq!(b.status, Status::Lost);
    let snapshot: Vec<CellState> = b.cells.iter().map(|c| c.state).collect();
    let changed = b.reveal_at(0, 0).unwrap();
    assert!(changed.is_empty());
    let flagged = b.toggle_flag(0, 0).unwrap();
    assert!(!flagged);
    let after: Vec<CellState> = b.cells.iter().map(|c| c.state).collect();
    assert_eq!(snapshot, after);
}

#[test]
fn out_of_bounds_is_rejected() {
    let mines = vec![(2usize, 2usize)];
    let mut b = Board::with_mines(3, 3, &mines, 0).unwrap();
    assert_eq!(b.reveal_at(3, 0).unwrap_err(), GameError::OutOfBounds);
    assert_eq!(b.reveal_at(0, 3).unwrap_err(), GameError::OutOfBounds);
    assert_eq!(b.toggle_flag(9, 9).unwrap_err(), GameError::OutOfBounds);
}

#[test]
fn flagged_cell_is_not_revealed() {
    let mines = vec![(2usize, 2usize)];
    let mut b = Board::with_mines(3, 3, &mines, 0).unwrap();
    b.toggle_flag(0, 0).unwrap();
    let changed = b.reveal_at(0, 0).unwrap();
    assert!(changed.is_empty());
    assert_eq!(b.cells[0].state, CellState::Flagged);
}

#[test]
fn tick_advances_only_in_progress() {
    let mut b = Board::new(9, 9, 10, 7).unwrap();
    b.tick();
    assert_eq!(b.elapsed_time, 0);
    b.reveal_at(4, 4).unwrap();
    if b.status == Status::InProgress {
        b.tick();
        b.tick();
        assert_eq!(b.elapsed_time, 2);
    }
    let mines = vec![(2usize, 2usize)];
    let mut lost = Board::with_mines(3, 3, &mines, 0).unwrap();
    lost.tick();
    assert_eq!(lost.elapsed_time, 1);
    lost.reveal_at(2, 2).unwrap();
    lost.tick();
    assert_eq!(lost.elapsed_time, 1);
}

#[test]
fn with_mines_validates_its_layout() {
    let dup = vec![(1usize, 1usize), (1usize, 1usize)];
    assert_eq!(Board::with_mines(3, 3, &dup, 0).unwrap_err(), GameError::InvalidConfiguration);
    let oob = vec![(3usize, 0usize)];
    assert_eq!(Board::with_mines(3, 3, &oob, 0).unwrap_err(), GameError::OutOfBounds);
    let too_many: Vec<(usize, usize)> = (0..3).flat_map(|r| (0..3).map(move |c| (r, c))).collect();
    assert_eq!(Board::with_mines(3, 3, &too_many, 0).unwrap_err(), GameError::InvalidConfiguration);
    let none: Vec<(usize, usize)> = Vec::new();
    assert_eq!(Board::with_mines(3, 3, &none, 0).unwrap_err(), GameError::InvalidConfiguration);
}

#[test]
fn won_exactly_when_all_safe_cells_revealed() {
    let mines = vec![(0usize, 0usize)];
    let mut b = Board::with_mines(2, 2, &mines, 0).unwrap();
    b.reveal_at(0, 1).unwrap();
    assert_eq!(b.status, Status::InProgress);
    b.reveal_at(1, 0).unwrap();
    assert_eq!(b.status, Status::InProgress);
    b.reveal_at(1, 1).unwrap();
    assert_eq!(b.status, Status::Won);
    assert!(b.cells.iter().all(|c| c.is_mine || c.state == CellState::Revealed));
}

#[test]
fn generator_stays_below_its_bound() {
    let mut p = Prng::new(42);
    for n in 1..50usize {
        let v = p.next_below(n);
        assert!(v < n);
    }
}

#[test]
fn generator_is_deterministic() {
    let mut a = Prng::new(9);
    let mut b = Prng::new(9);
    for _ in 0..10 {
        assert_eq!(a.next_u64(), b.next_u64());
    }
}
