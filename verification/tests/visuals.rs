use minesweeper::board::Board;
use minesweeper::board::Status;
use minesweeper::game::Minesweeper;
use minesweeper::grid::Banner;
use minesweeper::grid::CellAppearance;
use minesweeper::grid::VisualGrid;
use minesweeper::numerics::Vector2;
use minesweeper::numerics::cell_side;
use minesweeper::numerics::clamp;
use minesweeper::numerics::grid_origin;
use minesweeper::numerics::lerp;
use minesweeper::numerics::vec_add;
use minesweeper::numerics::vec_scale;

fn v(x: i64, y: i64) -> Vector2 {
    Vector2 { x, y }
}

#[test]
fn vector_arithmetic_is_exact() {
    let a = vec_add(v(3, -4), v(10, 7));
    assert_eq!((a.x, a.y), (13, 3));
    let s = vec_scale(v(3, -4), 5);
    assert_eq!((s.x, s.y), (15, -20));
}

#[test]
fn clamp_and_lerp_are_exact() {
    assert_eq!(clamp(5, 0, 10), 5);
    assert_eq!(clamp(-3, 0, 10), 0);
    assert_eq!(clamp(42, 0, 10), 10);
    assert_eq!(lerp(0, 100, 1, 4), 25);
    assert_eq!(lerp(10, 20, 0, 7), 10);
    assert_eq!(lerp(10, 20, 7, 7), 20);
}

#[test]
fn layout_centers_square_cells() {
    assert_eq!(cell_side(v(300, 200), 3, 2), 100);
    assert_eq!(cell_side(v(301, 250), 3, 2), 100);
    let o = grid_origin(v(320, 220), 3, 2, 100);
    assert_eq!((o.x, o.y), (10, 10));
}

#[test]
fn rebuild_makes_one_visual_per_cell() {
    let mines = vec![(2usize, 2usize)];
    let b = Board::with_mines(3, 3, &mines, 0).unwrap();
    let g = VisualGrid::rebuild(&b, v(300, 300));
    assert_eq!(g.cells.len(), 9);
    assert!(g.cells.iter().all(|c| c.look == CellAppearance::Cover && !c.highlighted));
    assert_eq!(g.cell_size, 100);
    assert_eq!(g.overlay.mines_remaining, 1);
    assert_eq!(g.overlay.banner, Banner::Absent);
}

#[test]
fn relayout_twice_keeps_every_cell_with_fresh_geometry() {
    let mines = vec![(2usize, 2usize)];
    let b = Board::with_mines(3, 3, &mines, 0).unwrap();
    let mut g = VisualGrid::rebuild(&b, v(300, 300));
    g.relayout(v(600, 660));
    g.relayout(v(90, 120));
    assert_eq!(g.cells.len(), 9);
    let cs = 30;
    assert_eq!(g.cell_size, cs);
    assert_eq!((g.origin_x, g.origin_y), (0, 15));
    for i in 0..9usize {
        let (row, col) = ((i / 3) as i64, (i % 3) as i64);
        assert_eq!(g.cells[i].x, g.origin_x + col * cs);
        assert_eq!(g.cells[i].y, g.origin_y + row * cs);
        assert_eq!(g.cells[i].side, cs);
    }
    // no two rectangles overlap
    for i in 0..9usize {
        for j in 0..9usize {
            if i != j {
                let (a, b2) = (&g.cells[i], &g.cells[j]);
                let apart = a.x + a.side <= b2.x || b2.x + b2.side <= a.x || a.y + a.side <= b2.y
                    || b2.y + b2.side <= a.y;
                assert!(apart);
            }
        }
    }
}

#[test]
fn hit_test_inverts_the_layout_at_cell_centers() {
    let mines = vec![(2usize, 2usize)];
    let b = Board::with_mines(3, 3, &mines, 0).unwrap();
    let mut g = VisualGrid::rebuild(&b, v(311, 222));
    g.relayout(v(311, 222));
    let cs = g.cell_size;
    assert!(cs >= 1);
    for row in 0..3i64 {
        for col in 0..3i64 {
            let center = v(g.origin_x + col * cs + cs / 2, g.origin_y + row * cs + cs / 2);
            assert_eq!(g.hit_test(center), Some((row as usize, col as usize)));
        }
    }
    assert_eq!(g.hit_test(v(-5, -5)), None);
    assert_eq!(g.hit_test(v(g.origin_x + 3 * cs, g.origin_y)), None);
}

#[test]
fn controller_starts_with_defaults() {
    let g = Minesweeper::new(v(640, 640), 11);
    assert_eq!(g.board.width, 16);
    assert_eq!(g.board.height, 16);
    assert_eq!(g.board.mine_count, 40);
    assert_eq!(g.board.status, Status::NotStarted);
    assert_eq!(g.grid.cells.len(), 256);
}

#[test]
fn pointer_press_reveals_under_the_pointer() {
    let mut g = Minesweeper::new(v(640, 640), 11);
    // center of cell (0,0)
    let cs = g.grid.cell_size;
    let p = v(g.grid.origin_x + cs / 2, g.grid.origin_y + cs / 2);
    g.on_pointer_moved(p);
    assert_eq!(g.hover, Some(0));
    assert!(g.grid.cells[0].highlighted);
    g.on_pointer_pressed(false, false);
    assert_ne!(g.board.status, Status::Lost);
    assert_ne!(g.grid.cells[0].look, CellAppearance::Cover);
}

#[test]
fn right_press_plants_a_flag() {
    let mut g = Minesweeper::new(v(640, 640), 11);
    let cs = g.grid.cell_size;
    let p = v(g.grid.origin_x + cs / 2, g.grid.origin_y + cs / 2);
    g.on_pointer_moved(p);
    g.on_pointer_pressed(true, false);
    assert_eq!(g.board.flag_count, 1);
    assert_eq!(g.grid.cells[0].look, CellAppearance::FlagCover);
    assert_eq!(g.grid.overlay.mines_remaining, 39);
    g.on_pointer_pressed(true, false);
    assert_eq!(g.board.flag_count, 0);
    assert_eq!(g.grid.cells[0].look, CellAppearance::Cover);
}

#[test]
fn resize_keeps_the_board_and_appearance() {
    let mut g = Minesweeper::new(v(640, 640), 11);
    let cs = g.grid.cell_size;
    let p = v(g.grid.origin_x + cs / 2, g.grid.origin_y + cs / 2);
    g.on_pointer_moved(p);
    g.on_pointer_pressed(true, false);
    g.on_parent_size_changed(v(320, 480));
    assert_eq!(g.grid.cells.len(), 256);
    assert_eq!(g.grid.cell_size, 20);
    assert_eq!(g.grid.cells[0].look, CellAppearance::FlagCover);
    assert_eq!(g.board.flag_count, 1);
}

#[test]
fn controller_reset_rejects_bad_configuration() {
    let mut g = Minesweeper::new(v(640, 640), 11);
    let r = g.reset_game(5, 5, 26);
    assert!(r.is_err());
    assert_eq!(g.board.width, 16);
    let r2 = g.reset_game(5, 5, 24);
    assert!(r2.is_ok());
    assert_eq!(g.board.width, 5);
    assert_eq!(g.grid.cells.len(), 25);
}

#[test]
fn banner_follows_the_status() {
    let mut g = Minesweeper::new(v(640, 640), 11);
    assert_eq!(g.grid.overlay.banner, Banner::Absent);
    g.reset_game(3, 3, 8).unwrap();
    // every cell but one is a mine: the first reveal wins instantly
    let cs = g.grid.cell_size;
    let p = v(g.grid.origin_x + cs / 2, g.grid.origin_y + cs / 2);
    g.on_pointer_moved(p);
    g.on_pointer_pressed(false, false);
    assert_eq!(g.board.status, Status::Won);
    assert_eq!(g.grid.overlay.banner, Banner::Victory);
}

#[test]
fn timer_is_mirrored_on_the_overlay() {
    let mut g = Minesweeper::new(v(640, 640), 11);
    g.on_tick();
    assert_eq!(g.grid.overlay.timer_value, 0);
    let cs = g.grid.cell_size;
    let p = v(g.grid.origin_x + cs / 2, g.grid.origin_y + cs / 2);
    g.on_pointer_moved(p);
    g.on_pointer_pressed(false, false);
    if g.board.status == Status::InProgress {
        g.on_tick();
        assert_eq!(g.grid.overlay.timer_value, 1);
    }
}
