//! The visual grid: the retained visual representation of the board.
//!
//! One [`VisualCell`] per board position, in the board's row-major order,
//! plus fixed overlay data (frame, mine counter, timer, end-game banner).
//! Geometry is derived from the parent size alone; appearance is a pure
//! function of the bound cell's state and neighbor count.

use vstd::prelude::*;
use vstd::pervasive::VecAdditionalExecFns;
use vstd::arithmetic::div_mod::lemma_fundamental_div_mod;
use vstd::arithmetic::div_mod::lemma_fundamental_div_mod_converse;
use vstd::arithmetic::div_mod::lemma_mod_bound;
use crate::board::Board;
use crate::board::Cell;
use crate::board::CellState;
use crate::board::Status;
use crate::board::MAX_DIM;
use crate::board::in_listu;
use crate::board::lemma_idx_grid;
use crate::board::lemma_dims_product;
use crate::numerics::COORD_LIMIT;
use crate::numerics::Vector2;
use crate::numerics::cell_side;
use crate::numerics::cell_side_spec;
use crate::numerics::centered_origin_spec;
use crate::numerics::grid_origin;

verus! {

/// What one visual cell displays.
#[derive(Clone, Copy, PartialEq, Eq, Structural, Debug)]
pub enum CellAppearance {
    /// Neutral cover over a hidden cell.
    Cover,
    /// Cover with a flag glyph.
    FlagCover,
    /// Revealed cell with no neighboring mine.
    Blank,
    /// Revealed cell showing its neighbor count.
    Numeral(u8),
    /// A mine shown at game end.
    MineShown,
    /// The mine that was hit, with the loss highlight.
    MineBlast,
}

/// The appearance a cell's state and neighbor count call for.
pub open spec fn appearance_of(c: Cell) -> CellAppearance {
    match c.state {
        CellState::Hidden => CellAppearance::Cover,
        CellState::Flagged => CellAppearance::FlagCover,
        CellState::Revealed => if c.is_mine {
            CellAppearance::MineShown
        } else if c.adjacent == 0 {
            CellAppearance::Blank
        } else {
            CellAppearance::Numeral(c.adjacent)
        },
        CellState::Exploded => CellAppearance::MineBlast,
    }
}

/// Computes [`appearance_of`].
pub fn appearance_for(c: Cell) -> (a: CellAppearance)
    ensures
        a == appearance_of(c),
{
    match c.state {
        CellState::Hidden => CellAppearance::Cover,
        CellState::Flagged => CellAppearance::FlagCover,
        CellState::Revealed => if c.is_mine {
            CellAppearance::MineShown
        } else if c.adjacent == 0 {
            CellAppearance::Blank
        } else {
            CellAppearance::Numeral(c.adjacent)
        },
        CellState::Exploded => CellAppearance::MineBlast,
    }
}

/// The banner shown over a finished game.
#[derive(Clone, Copy, PartialEq, Eq, Structural, Debug)]
pub enum Banner {
    Absent,
    Victory,
    Defeat,
}

/// The banner a game status calls for.
pub open spec fn banner_of(st: Status) -> Banner {
    match st {
        Status::Won => Banner::Victory,
        Status::Lost => Banner::Defeat,
        _ => Banner::Absent,
    }
}

/// One retained visual element, bound to one board cell.
#[derive(Clone, Copy, PartialEq, Eq, Structural, Debug)]
pub struct VisualCell {
    pub x: i64,
    pub y: i64,
    pub side: i64,
    pub look: CellAppearance,
    pub highlighted: bool,
}

/// The fixed overlay visuals, positioned relative to the grid bounds.
#[derive(Clone, Copy, PartialEq, Eq, Structural, Debug)]
pub struct Overlay {
    pub frame_x: i64,
    pub frame_y: i64,
    pub frame_w: i64,
    pub frame_h: i64,
    pub counter_x: i64,
    pub counter_y: i64,
    pub timer_x: i64,
    pub timer_y: i64,
    pub mines_remaining: i64,
    pub timer_value: u64,
    pub banner: Banner,
}

/// The visual grid. Owns exactly one visual cell per board position.
pub struct VisualGrid {
    pub cols: usize,
    pub rows: usize,
    pub parent: Vector2,
    pub cell_size: i64,
    pub origin_x: i64,
    pub origin_y: i64,
    pub cells: Vec<VisualCell>,
    pub overlay: Overlay,
}

impl VisualGrid {
    /// Accepted column/row counts and parent extent.
    pub open spec fn dims_ok(self) -> bool {
        &&& 1 <= self.cols <= MAX_DIM
        &&& 1 <= self.rows <= MAX_DIM
        &&& 0 <= self.parent.x <= COORD_LIMIT
        &&& 0 <= self.parent.y <= COORD_LIMIT
    }

    /// Geometry is exactly what the current parent size calls for: square
    /// cells of the largest side that fits, the grid centered, overlays on
    /// the grid bounds.
    pub open spec fn layout_ok(self) -> bool {
        let cs = cell_side_spec(
            self.parent.x as int,
            self.parent.y as int,
            self.cols as int,
            self.rows as int,
        );
        &&& self.cell_size == cs
        &&& self.origin_x == centered_origin_spec(self.parent.x as int, self.cols as int, cs)
        &&& self.origin_y == centered_origin_spec(self.parent.y as int, self.rows as int, cs)
        &&& self.cells@.len() == self.cols * self.rows
        &&& forall|i: int| 0 <= i < self.cells@.len() ==> {
            let v = #[trigger] self.cells@[i];
            v.x == self.origin_x + (i % (self.cols as int)) * self.cell_size && v.y
                == self.origin_y + (i / (self.cols as int)) * self.cell_size && v.side
                == self.cell_size
        }
        &&& self.overlay.frame_x == self.origin_x
        &&& self.overlay.frame_y == self.origin_y
        &&& self.overlay.frame_w == self.cols * self.cell_size
        &&& self.overlay.frame_h == self.rows * self.cell_size
        &&& self.overlay.counter_x == self.origin_x
        &&& self.overlay.counter_y == 0
        &&& self.overlay.timer_x == self.origin_x + (self.cols - 1) * self.cell_size
        &&& self.overlay.timer_y == 0
    }

    /// The displayed appearances and overlay values mirror `b` exactly.
    pub open spec fn matches_board(self, b: Board) -> bool {
        &&& self.cols == b.width
        &&& self.rows == b.height
        &&& self.cells@.len() == b.cells@.len()
        &&& forall|i: int| 0 <= i < self.cells@.len() ==> (#[trigger] self.cells@[i]).look
            == appearance_of(b.cells@[i])
        &&& self.overlay.mines_remaining == b.mine_count - b.flag_count
        &&& self.overlay.timer_value == b.elapsed_time
        &&& self.overlay.banner == banner_of(b.status)
    }

    /// Where a point falls on the grid: the exact inverse of the layout
    /// transform, or nothing when the point misses the grid.
    pub open spec fn hit_spec(self, x: int, y: int) -> Option<(int, int)> {
        if self.cell_size >= 1 && self.origin_x <= x < self.origin_x + self.cols * self.cell_size
            && self.origin_y <= y < self.origin_y + self.rows * self.cell_size {
            Some(
                (
                    (y - self.origin_y) / (self.cell_size as int),
                    (x - self.origin_x) / (self.cell_size as int),
                ),
            )
        } else {
            Option::<(int, int)>::None
        }
    }

    /// Builds the whole grid for `b`, laid out for `parent`.
    pub fn rebuild(b: &Board, parent: Vector2) -> (g: VisualGrid)
        requires
            b.wf(),
            0 <= parent.x <= COORD_LIMIT,
            0 <= parent.y <= COORD_LIMIT,
        ensures
            g.dims_ok(),
            g.layout_ok(),
            g.matches_board(*b),
            g.parent == parent,
            forall|i: int| 0 <= i < g.cells@.len() ==> !(#[trigger] g.cells@[i]).highlighted,
    {
        proof {
            lemma_dims_product(b.width as int, b.height as int);
        }
        let cols = b.width;
        let rows = b.height;
        let total = cols * rows;
        let mut cells: Vec<VisualCell> = Vec::new();
        let mut i: usize = 0;
        while i < total
            invariant
                i <= total,
                total == b.cells@.len(),
                b.wf(),
                total == cols * rows,
                cols == b.width,
                cells@.len() == i,
                forall|k: int| 0 <= k < i ==> (#[trigger] cells@[k]) == (VisualCell {
                    x: 0,
                    y: 0,
                    side: 0,
                    look: appearance_of(b.cells@[k]),
                    highlighted: false,
                }),
            decreases total - i,
        {
            let look = appearance_for(b.cells[i]);
            cells.push(VisualCell { x: 0, y: 0, side: 0, look, highlighted: false });
            i = i + 1;
        }
        proof {
            crate::board::lemma_count_state_bound(b.cells@, CellState::Flagged);
        }
        let flags = b.flag_count;
        let overlay = Overlay {
            frame_x: 0,
            frame_y: 0,
            frame_w: 0,
            frame_h: 0,
            counter_x: 0,
            counter_y: 0,
            timer_x: 0,
            timer_y: 0,
            mines_remaining: b.mine_count as i64 - flags as i64,
            timer_value: b.elapsed_time,
            banner: match b.status {
                Status::Won => Banner::Victory,
                Status::Lost => Banner::Defeat,
                _ => Banner::Absent,
            },
        };
        let mut g = VisualGrid {
            cols,
            rows,
            parent,
            cell_size: 0,
            origin_x: 0,
            origin_y: 0,
            cells,
            overlay,
        };
        g.relayout(parent);
        g
    }

    /// Recomputes the geometry of every visual for a new parent size.
    /// Idempotent: the result depends only on the parent size and the grid
    /// dimensions; appearances, highlights and overlay values are untouched.
    pub fn relayout(&mut self, parent: Vector2)
        requires
            1 <= old(self).cols <= MAX_DIM,
            1 <= old(self).rows <= MAX_DIM,
            0 <= parent.x <= COORD_LIMIT,
            0 <= parent.y <= COORD_LIMIT,
            old(self).cells@.len() == old(self).cols * old(self).rows,
        ensures
            final(self).dims_ok(),
            final(self).layout_ok(),
            final(self).parent == parent,
            final(self).cols == old(self).cols,
            final(self).rows == old(self).rows,
            final(self).cells@.len() == old(self).cells@.len(),
            forall|i: int| 0 <= i < old(self).cells@.len() ==> (#[trigger] final(self).cells@[i]).look == old(self).cells@[i].look && final(self).cells@[i].highlighted
                == old(self).cells@[i].highlighted,
            final(self).overlay.mines_remaining == old(self).overlay.mines_remaining,
            final(self).overlay.timer_value == old(self).overlay.timer_value,
            final(self).overlay.banner == old(self).overlay.banner,
    {
        let cols = self.cols;
        let rows = self.rows;
        let cs = cell_side(parent, cols as i64, rows as i64);
        proof {
            lemma_fundamental_div_mod(parent.x as int, cols as int);
            lemma_fundamental_div_mod(parent.y as int, rows as int);
            lemma_mod_bound(parent.x as int, cols as int);
            lemma_mod_bound(parent.y as int, rows as int);
            assert((cols as int) * cs <= parent.x as int && (rows as int) * cs <= parent.y as int)
                by (nonlinear_arith)
                requires
                    1 <= cols,
                    1 <= rows,
                    0 <= parent.x,
                    0 <= parent.y,
                    cs <= (parent.x as int) / (cols as int),
                    cs <= (parent.y as int) / (rows as int),
                    0 <= cs,
                    (parent.x as int) == (cols as int) * ((parent.x as int) / (cols as int)) + (parent.x as int) % (cols as int),
                    (parent.y as int) == (rows as int) * ((parent.y as int) / (rows as int)) + (parent.y as int) % (rows as int),
                    0 <= (parent.x as int) % (cols as int),
                    0 <= parent.y as int % rows as int;
        }
        let origin = grid_origin(parent, cols as i64, rows as i64, cs);
        self.parent = parent;
        self.cell_size = cs;
        self.origin_x = origin.x;
        self.origin_y = origin.y;
        let total = self.cells.len();
        let mut i: usize = 0;
        while i < total
            invariant
                i <= total,
                total == self.cells@.len(),
                total == cols * rows,
                cols == self.cols,
                rows == self.rows,
                1 <= cols <= MAX_DIM,
                1 <= rows <= MAX_DIM,
                self.parent == parent,
                self.cell_size == cs,
                self.origin_x == origin.x,
                self.origin_y == origin.y,
                self.overlay == old(self).overlay,
                0 <= cs <= COORD_LIMIT,
                0 <= origin.x <= COORD_LIMIT,
                0 <= origin.y <= COORD_LIMIT,
                forall|k: int| 0 <= k < total ==> (#[trigger] self.cells@[k]).look
                    == old(self).cells@[k].look && self.cells@[k].highlighted
                    == old(self).cells@[k].highlighted,
                forall|k: int| 0 <= k < i ==> {
                    let v = #[trigger] self.cells@[k];
                    v.x == origin.x + (k % (cols as int)) * cs && v.y == origin.y + (k / (
                    cols as int)) * cs && v.side == cs
                },
            decreases total - i,
        {
            proof {
                lemma_idx_grid(cols as int, rows as int, i as int);
                assert(0 <= ((i as int) % (cols as int)) * cs <= 0x1000_0000_0000_0000
                    && 0 <= ((i as int) / (cols as int)) * cs <= 0x1000_0000_0000_0000)
                    by (nonlinear_arith)
                    requires
                        0 <= (i as int) % (cols as int) < cols,
                        0 <= (i as int) / (cols as int) < rows,
                        cols <= 4096,
                        rows <= 4096,
                        0 <= cs <= 0x4000_0000i64;
            }
            let col = i % cols;
            let row = i / cols;
            let v = self.cells[i];
            let nv = VisualCell {
                x: origin.x + (col as i64) * cs,
                y: origin.y + (row as i64) * cs,
                side: cs,
                ..v
            };
            self.cells.set(i, nv);
            i = i + 1;
        }
        proof {
            assert(0 <= (self.cols as int) * cs <= 0x1000_0000_0000_0000 && 0 <= (self.rows as int)
                * cs <= 0x1000_0000_0000_0000 && 0 <= (self.cols as int - 1) * cs
                <= 0x1000_0000_0000_0000) by (nonlinear_arith)
                requires 1 <= self.cols <= 4096, 1 <= self.rows <= 4096, 0 <= cs <= 0x4000_0000i64;
        }
        self.overlay.frame_x = self.origin_x;
        self.overlay.frame_y = self.origin_y;
        self.overlay.frame_w = (self.cols as i64) * cs;
        self.overlay.frame_h = (self.rows as i64) * cs;
        self.overlay.counter_x = self.origin_x;
        self.overlay.counter_y = 0;
        self.overlay.timer_x = self.origin_x + ((self.cols - 1) as i64) * cs;
        self.overlay.timer_y = 0;
    }

    /// Updates the appearance of exactly the listed cells from `b`, and the
    /// overlay values from the board's counters and status. Geometry and
    /// highlights are untouched.
    pub fn apply_changes(&mut self, b: &Board, changed: &Vec<usize>)
        requires
            b.wf(),
            old(self).cells@.len() == b.cells@.len(),
            forall|k: int| 0 <= k < changed@.len() ==> (#[trigger] changed@[k]) < b.cells@.len(),
        ensures
            final(self).cols == old(self).cols,
            final(self).rows == old(self).rows,
            final(self).parent == old(self).parent,
            final(self).cell_size == old(self).cell_size,
            final(self).origin_x == old(self).origin_x,
            final(self).origin_y == old(self).origin_y,
            final(self).cells@.len() == old(self).cells@.len(),
            forall|i: int| 0 <= i < old(self).cells@.len() ==> {
                let v = #[trigger] final(self).cells@[i];
                &&& v.x == old(self).cells@[i].x
                &&& v.y == old(self).cells@[i].y
                &&& v.side == old(self).cells@[i].side
                &&& v.highlighted == old(self).cells@[i].highlighted
                &&& v.look == (if in_listu(changed@, i) {
                    appearance_of(b.cells@[i])
                } else {
                    old(self).cells@[i].look
                })
            },
            final(self).overlay == (Overlay {
                mines_remaining: ((b.mine_count - b.flag_count) as i64),
                timer_value: b.elapsed_time,
                banner: banner_of(b.status),
                ..old(self).overlay
            }),
    {
        let n = changed.len();
        let mut k: usize = 0;
        while k < n
            invariant
                k <= n,
                n == changed@.len(),
                self.cells@.len() == old(self).cells@.len(),
                self.cells@.len() == b.cells@.len(),
                forall|t: int| 0 <= t < n ==> (#[trigger] changed@[t]) < b.cells@.len(),
                self.cols == old(self).cols,
                self.rows == old(self).rows,
                self.parent == old(self).parent,
                self.cell_size == old(self).cell_size,
                self.origin_x == old(self).origin_x,
                self.origin_y == old(self).origin_y,
                self.overlay == old(self).overlay,
                forall|i: int| 0 <= i < old(self).cells@.len() ==> {
                    let v = #[trigger] self.cells@[i];
                    &&& v.x == old(self).cells@[i].x
                    &&& v.y == old(self).cells@[i].y
                    &&& v.side == old(self).cells@[i].side
                    &&& v.highlighted == old(self).cells@[i].highlighted
                    &&& v.look == (if exists|t: int| 0 <= t < k && changed@[t] == i {
                        appearance_of(b.cells@[i])
                    } else {
                        old(self).cells@[i].look
                    })
                },
            decreases n - k,
        {
            let idx = changed[k];
            let look = appearance_for(b.cells[idx]);
            let v = self.cells[idx];
            let nv = VisualCell { look, ..v };
            self.cells.set(idx, nv);
            proof {
                assert forall|i: int| 0 <= i < old(self).cells@.len() implies {
                    let v2 = #[trigger] self.cells@[i];
                    v2.look == (if exists|t: int| 0 <= t < k + 1 && changed@[t] == i {
                        appearance_of(b.cells@[i])
                    } else {
                        old(self).cells@[i].look
                    })
                } by {
                    if i == idx as int {
                        assert(0 <= k < k + 1 && changed@[k as int] == i);
                    } else {
                        if exists|t: int| 0 <= t < k + 1 && changed@[t] == i {
                            let t = choose|t: int| 0 <= t < k + 1 && changed@[t] == i;
                            assert(t < k);
                            assert(exists|t2: int| 0 <= t2 < k && changed@[t2] == i);
                        }
                    }
                }
            }
            k = k + 1;
        }
        proof {
            lemma_dims_product(b.width as int, b.height as int);
            crate::board::lemma_count_state_bound(b.cells@, CellState::Flagged);
        }
        self.overlay.mines_remaining = b.mine_count as i64 - b.flag_count as i64;
        self.overlay.timer_value = b.elapsed_time;
        self.overlay.banner = match b.status {
            Status::Won => Banner::Victory,
            Status::Lost => Banner::Defeat,
            _ => Banner::Absent,
        };
    }

    /// Highlights exactly the hovered cell, if any.
    pub fn set_hover(&mut self, hover: Option<usize>)
        requires
            match hover {
                Some(i) => i < old(self).cells@.len(),
                None => true,
            },
        ensures
            final(self).cells@.len() == old(self).cells@.len(),
            forall|i: int| 0 <= i < old(self).cells@.len() ==> {
                let v = #[trigger] final(self).cells@[i];
                &&& v.x == old(self).cells@[i].x
                &&& v.y == old(self).cells@[i].y
                &&& v.side == old(self).cells@[i].side
                &&& v.look == old(self).cells@[i].look
                &&& v.highlighted == (hover == Some(i as usize))
            },
            final(self).cols == old(self).cols,
            final(self).rows == old(self).rows,
            final(self).parent == old(self).parent,
            final(self).cell_size == old(self).cell_size,
            final(self).origin_x == old(self).origin_x,
            final(self).origin_y == old(self).origin_y,
            final(self).overlay == old(self).overlay,
    {
        let total = self.cells.len();
        let mut i: usize = 0;
        while i < total
            invariant
                i <= total,
                total == self.cells@.len(),
                total == old(self).cells@.len(),
                self.cols == old(self).cols,
                self.rows == old(self).rows,
                self.parent == old(self).parent,
                self.cell_size == old(self).cell_size,
                self.origin_x == old(self).origin_x,
                self.origin_y == old(self).origin_y,
                self.overlay == old(self).overlay,
                forall|t: int| 0 <= t < total ==> {
                    let v = #[trigger] self.cells@[t];
                    &&& v.x == old(self).cells@[t].x
                    &&& v.y == old(self).cells@[t].y
                    &&& v.side == old(self).cells@[t].side
                    &&& v.look == old(self).cells@[t].look
                },
                forall|t: int| 0 <= t < i ==> (#[trigger] self.cells@[t]).highlighted == (hover
                    == Some(t as usize)),
                forall|t: int| i <= t < total ==> (#[trigger] self.cells@[t]).highlighted
                    == old(self).cells@[t].highlighted,
            decreases total - i,
        {
            let on = match hover {
                Some(hh) => hh == i,
                None => false,
            };
            let v = self.cells[i];
            let nv = VisualCell { highlighted: on, ..v };
            self.cells.set(i, nv);
            i = i + 1;
        }
    }

    /// Hit test: maps a point back to the cell whose rectangle holds it.
    pub fn hit_test(&self, p: Vector2) -> (r: Option<(usize, usize)>)
        requires
            self.dims_ok(),
            self.layout_ok(),
            -COORD_LIMIT <= p.x <= COORD_LIMIT,
            -COORD_LIMIT <= p.y <= COORD_LIMIT,
        ensures
            match r {
                Some((row, col)) => self.hit_spec(p.x as int, p.y as int) == Some(
                    (row as int, col as int),
                ) && row < self.rows && col < self.cols,
                None => self.hit_spec(p.x as int, p.y as int) is None,
            },
    {
        let cs = self.cell_size;
        if cs < 1 {
            return Option::<(usize, usize)>::None;
        }
        if p.x < self.origin_x || p.y < self.origin_y {
            proof {
                self.lemma_origin_in_bounds();
            }
            return Option::<(usize, usize)>::None;
        }
        proof {
            self.lemma_origin_in_bounds();
        }
        let dx = ((p.x - self.origin_x) as u64) / (cs as u64);
        let dy = ((p.y - self.origin_y) as u64) / (cs as u64);
        proof {
            let xi = p.x - self.origin_x;
            let yi = p.y - self.origin_y;
            lemma_fundamental_div_mod(xi as int, cs as int);
            lemma_fundamental_div_mod(yi as int, cs as int);
            lemma_mod_bound(xi as int, cs as int);
            lemma_mod_bound(yi as int, cs as int);
            assert(((xi as int) / (cs as int) < (self.cols as int)) <==> (xi < (self.cols as int) * cs))
                by (nonlinear_arith)
                requires
                    1 <= cs,
                    0 <= xi,
                    1 <= self.cols,
                    (xi as int) == (cs as int) * ((xi as int) / (cs as int)) + (xi as int) % (cs as int),
                    0 <= (xi as int) % (cs as int) < cs;
            assert(((yi as int) / (cs as int) < (self.rows as int)) <==> (yi < (self.rows as int) * cs))
                by (nonlinear_arith)
                requires
                    1 <= cs,
                    0 <= yi,
                    1 <= self.rows,
                    (yi as int) == (cs as int) * ((yi as int) / (cs as int)) + (yi as int) % (cs as int),
                    0 <= (yi as int) % (cs as int) < cs;
            assert((xi as int) / (cs as int) <= xi) by (nonlinear_arith)
                requires 1 <= cs, 0 <= xi,
                    (xi as int) == (cs as int) * ((xi as int) / (cs as int)) + (xi as int) % (cs as int),
                    0 <= (xi as int) % (cs as int);
            assert((yi as int) / (cs as int) <= yi) by (nonlinear_arith)
                requires 1 <= cs, 0 <= yi,
                    (yi as int) == (cs as int) * ((yi as int) / (cs as int)) + (yi as int) % (cs as int),
                    0 <= (yi as int) % (cs as int);
        }
        let col = dx as usize;
        let row = dy as usize;
        if col < self.cols && row < self.rows {
            Some((row, col))
        } else {
            Option::<(usize, usize)>::None
        }
    }

    /// With the layout in place, the origin lies inside the parent bounds.
    proof fn lemma_origin_in_bounds(self)
        requires
            self.dims_ok(),
            self.layout_ok(),
        ensures
            0 <= self.origin_x <= self.parent.x,
            0 <= self.origin_y <= self.parent.y,
            0 <= self.cell_size <= COORD_LIMIT,
    {
        let px = self.parent.x as int;
        let py = self.parent.y as int;
        let cols = self.cols as int;
        let rows = self.rows as int;
        let cs = cell_side_spec(px, py, cols, rows);
        lemma_fundamental_div_mod(px, cols);
        lemma_fundamental_div_mod(py, rows);
        lemma_mod_bound(px, cols);
        lemma_mod_bound(py, rows);
        assert(0 <= cols * cs <= px && 0 <= rows * cs <= py) by (nonlinear_arith)
            requires
                1 <= cols,
                1 <= rows,
                0 <= px,
                0 <= py,
                cs <= px / cols,
                cs <= py / rows,
                0 <= cs,
                px == cols * (px / cols) + px % cols,
                py == rows * (py / rows) + py % rows,
                0 <= px % cols,
                0 <= py % rows;
        assert(0 <= (px - cols * cs) / 2 <= px);
        assert(0 <= (py - rows * cs) / 2 <= py);
        assert(0 <= cs <= px) by (nonlinear_arith)
            requires 1 <= cols, 0 <= px, cs <= px / cols, 0 <= cs,
                px == cols * (px / cols) + px % cols, 0 <= px % cols;
    }
}

/// The hit test is the exact inverse of the layout: for every in-bounds
/// cell, the center of the rectangle `relayout` gives it hit-tests back to
/// that very cell.
pub proof fn lemma_hit_test_inverse(g: VisualGrid, row: int, col: int)
    requires
        g.dims_ok(),
        g.layout_ok(),
        g.cell_size >= 1,
        0 <= row < g.rows,
        0 <= col < g.cols,
    ensures
        g.hit_spec(
            g.origin_x + col * g.cell_size + g.cell_size / 2,
            g.origin_y + row * g.cell_size + g.cell_size / 2,
        ) == Some((row, col)),
{
    let cs = g.cell_size as int;
    lemma_fundamental_div_mod(cs, 2);
    lemma_mod_bound(cs, 2);
    assert(0 <= cs / 2 < cs);
    lemma_fundamental_div_mod_converse(col * cs + cs / 2, cs, col, cs / 2);
    lemma_fundamental_div_mod_converse(row * cs + cs / 2, cs, row, cs / 2);
    assert(col * cs + cs / 2 < g.cols as int * cs && row * cs + cs / 2 < g.rows as int * cs)
        by (nonlinear_arith)
        requires 1 <= cs, 0 <= col, col + 1 <= g.cols as int, 0 <= row, row + 1 <= g.rows as int,
            0 <= cs / 2 < cs;
    assert(0 <= col * cs && 0 <= row * cs) by (nonlinear_arith)
        requires 0 <= col, 0 <= row, 0 <= cs;
}

/// Distinct cells get disjoint rectangles: the grid never overlaps.
pub proof fn lemma_cells_disjoint(g: VisualGrid, i: int, j: int)
    requires
        g.dims_ok(),
        g.layout_ok(),
        g.cell_size >= 1,
        0 <= i < g.cells@.len(),
        0 <= j < g.cells@.len(),
        i != j,
    ensures
        g.cells@[i].x + g.cells@[i].side <= g.cells@[j].x || g.cells@[j].x + g.cells@[j].side
            <= g.cells@[i].x || g.cells@[i].y + g.cells@[i].side <= g.cells@[j].y
            || g.cells@[j].y + g.cells@[j].side <= g.cells@[i].y,
{
    let cols = g.cols as int;
    let rows = g.rows as int;
    let cs = g.cell_size as int;
    lemma_idx_grid(cols, rows, i);
    lemma_idx_grid(cols, rows, j);
    let ci = i % cols;
    let cj = j % cols;
    let ri = i / cols;
    let rj = j / cols;
    assert(g.cells@[i].x == g.origin_x + ci * cs && g.cells@[i].y == g.origin_y + ri * cs
        && g.cells@[i].side == cs);
    assert(g.cells@[j].x == g.origin_x + cj * cs && g.cells@[j].y == g.origin_y + rj * cs
        && g.cells@[j].side == cs);
    if ri == rj && ci == cj {
        assert(i == j);
    } else if ci < cj {
        assert(ci * cs + cs <= cj * cs) by (nonlinear_arith)
            requires ci + 1 <= cj, 1 <= cs;
        assert(g.cells@[i].x + g.cells@[i].side <= g.cells@[j].x);
    } else if cj < ci {
        assert(cj * cs + cs <= ci * cs) by (nonlinear_arith)
            requires cj + 1 <= ci, 1 <= cs;
        assert(g.cells@[j].x + g.cells@[j].side <= g.cells@[i].x);
    } else if ri < rj {
        assert(ri * cs + cs <= rj * cs) by (nonlinear_arith)
            requires ri + 1 <= rj, 1 <= cs;
        assert(g.cells@[i].y + g.cells@[i].side <= g.cells@[j].y);
    } else {
        assert(rj * cs + cs <= ri * cs) by (nonlinear_arith)
            requires rj + 1 <= ri, 1 <= cs;
        assert(g.cells@[j].y + g.cells@[j].side <= g.cells@[i].y);
    }
}

} // verus!
