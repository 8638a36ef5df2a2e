//! The game controller: composes the board engine and the visual grid.
//!
//! A [`Minesweeper`] owns the board and its visual grid and receives the
//! three external entry points (pointer moved, pointer pressed, parent size
//! changed) plus the periodic tick. Its well-formedness [`Minesweeper::wf`]
//! keeps the visuals synchronized with the board at every step: each visual
//! cell shows exactly what its board cell calls for.

use vstd::prelude::*;
use vstd::pervasive::unreached;
use crate::board::Board;
use crate::board::Cell;
use crate::board::CellState;
use crate::board::GameError;
use crate::board::Status;
use crate::board::first_reveal_outcome;
use crate::board::lemma_grid_idx;
use crate::board::lemma_dims_product;
use crate::board::loss_outcome;
use crate::board::open_outcome;
use crate::board::in_listu;
use crate::board::reveal_applies;
use crate::grid::VisualGrid;
use crate::grid::appearance_of;
use crate::numerics::COORD_LIMIT;
use crate::numerics::Vector2;

verus! {

/// Default board configuration, used until the first `reset_game`.
pub const DEFAULT_WIDTH: usize = 16;

pub const DEFAULT_HEIGHT: usize = 16;

pub const DEFAULT_MINES: usize = 40;

/// How a flag toggle at index `i` relates the board before and after.
pub open spec fn board_toggled(pre: Board, post: Board, i: int) -> bool {
    &&& post.width == pre.width
    &&& post.height == pre.height
    &&& post.mine_count == pre.mine_count
    &&& post.status == pre.status
    &&& post.elapsed_time == pre.elapsed_time
    &&& post.revealed_count == pre.revealed_count
    &&& if (pre.status == Status::NotStarted || pre.status == Status::InProgress) && (
    pre.cells@[i].state == CellState::Hidden || pre.cells@[i].state == CellState::Flagged) {
        if pre.cells@[i].state == CellState::Hidden {
            post.cells@ == pre.cells@.update(
                i,
                Cell { state: CellState::Flagged, ..pre.cells@[i] },
            ) && post.flag_count == pre.flag_count + 1
        } else {
            post.cells@ == pre.cells@.update(
                i,
                Cell { state: CellState::Hidden, ..pre.cells@[i] },
            ) && post.flag_count == pre.flag_count - 1
        }
    } else {
        post == pre
    }
}

/// How a reveal at `(row, col)` relates the board before and after.
pub open spec fn board_revealed(pre: Board, post: Board, row: int, col: int) -> bool {
    let i = row * pre.width + col;
    if !reveal_applies(pre, i) {
        post == pre
    } else if pre.status == Status::InProgress && pre.cells@[i].is_mine {
        exists|chg: Seq<usize>| #[trigger] loss_outcome(pre, post, i, chg)
    } else if pre.status == Status::InProgress {
        exists|chg: Seq<usize>| #[trigger] open_outcome(pre, post, i, chg)
    } else {
        post.status != Status::Lost && exists|chg: Seq<usize>| #[trigger] first_reveal_outcome(
            pre,
            post,
            row,
            col,
            chg,
        )
    }
}

/// The externally visible game object.
pub struct Minesweeper {
    pub board: Board,
    pub grid: VisualGrid,
    pub hover: Option<usize>,
    pub pointer: Option<Vector2>,
}

impl Minesweeper {
    /// The controller invariant: a well-formed board, a grid laid out for
    /// the current parent size whose appearances mirror the board exactly,
    /// and a highlight on precisely the hovered cell.
    pub open spec fn wf(self) -> bool {
        &&& self.board.wf()
        &&& self.grid.dims_ok()
        &&& self.grid.layout_ok()
        &&& self.grid.matches_board(self.board)
        &&& match self.hover {
            Some(i) => i < self.grid.cells@.len(),
            None => true,
        }
        &&& forall|k: int| 0 <= k < self.grid.cells@.len() ==> ((#[trigger] self.grid.cells@[
        k]).highlighted <==> self.hover == Some(k as usize))
        &&& match self.pointer {
            Some(p) => -COORD_LIMIT <= p.x <= COORD_LIMIT && -COORD_LIMIT <= p.y <= COORD_LIMIT,
            None => true,
        }
    }

    /// A fresh game with the default configuration, built and laid out for
    /// the given parent size so the caller can render immediately.
    pub fn new(parent: Vector2, seed: u64) -> (g: Minesweeper)
        requires
            0 <= parent.x <= COORD_LIMIT,
            0 <= parent.y <= COORD_LIMIT,
        ensures
            g.wf(),
            g.board.status == Status::NotStarted,
            g.board.width == DEFAULT_WIDTH,
            g.board.height == DEFAULT_HEIGHT,
            g.board.mine_count == DEFAULT_MINES,
            g.grid.parent == parent,
            g.hover is None,
            g.pointer is None,
    {
        let board = match Board::new(DEFAULT_WIDTH, DEFAULT_HEIGHT, DEFAULT_MINES, seed) {
            Ok(b) => b,
            Err(_) => unreached(),
        };
        let grid = VisualGrid::rebuild(&board, parent);
        Minesweeper { board, grid, hover: None, pointer: None }
    }

    /// Replaces the board with a fresh one and rebuilds the visuals. On a
    /// rejected configuration nothing changes.
    pub fn reset_game(&mut self, width: usize, height: usize, mine_count: usize) -> (r: Result<
        (),
        GameError,
    >)
        requires
            old(self).wf(),
        ensures
            final(self).wf(),
            final(self).grid.parent == old(self).grid.parent,
            match r {
                Ok(()) => crate::board::config_ok(width as int, height as int, mine_count as int)
                    && final(self).board.is_fresh(
                    width as int,
                    height as int,
                    mine_count as int,
                ) && final(self).hover is None,
                Err(e) => e == GameError::InvalidConfiguration && !crate::board::config_ok(
                    width as int,
                    height as int,
                    mine_count as int,
                ) && *final(self) == *old(self),
            },
    {
        let parent = self.grid.parent;
        match self.board.reset(width, height, mine_count) {
            Ok(()) => {
                self.grid = VisualGrid::rebuild(&self.board, parent);
                self.hover = None;
                Ok(())
            },
            Err(e) => Err(e),
        }
    }

    /// Advances the timer and mirrors it on the overlay.
    pub fn on_tick(&mut self)
        requires
            old(self).wf(),
        ensures
            final(self).wf(),
            final(self).board == (Board {
                elapsed_time: final(self).board.elapsed_time,
                ..old(self).board
            }),
            final(self).board.elapsed_time == (if old(self).board.status == Status::InProgress
                && old(self).board.elapsed_time < u64::MAX {
                old(self).board.elapsed_time + 1
            } else {
                old(self).board.elapsed_time as int
            }),
            final(self).hover == old(self).hover,
            final(self).pointer == old(self).pointer,
    {
        self.board.tick();
        self.grid.overlay.timer_value = self.board.elapsed_time;
    }

    /// Forwards a parent resize to the grid layout. The board, the hover
    /// and the displayed appearances are untouched.
    pub fn on_parent_size_changed(&mut self, size: Vector2)
        requires
            old(self).wf(),
            0 <= size.x <= COORD_LIMIT,
            0 <= size.y <= COORD_LIMIT,
        ensures
            final(self).wf(),
            final(self).board == old(self).board,
            final(self).grid.parent == size,
            final(self).grid.layout_ok(),
            final(self).hover == old(self).hover,
            final(self).pointer == old(self).pointer,
    {
        self.grid.relayout(size);
    }

    /// Tracks the pointer and moves the hover highlight to the cell under
    /// it, if any. Visual-only: the board never changes.
    pub fn on_pointer_moved(&mut self, p: Vector2)
        requires
            old(self).wf(),
            -COORD_LIMIT <= p.x <= COORD_LIMIT,
            -COORD_LIMIT <= p.y <= COORD_LIMIT,
        ensures
            final(self).wf(),
            final(self).board == old(self).board,
            final(self).pointer == Some(p),
            match old(self).grid.hit_spec(p.x as int, p.y as int) {
                Some((row, col)) => final(self).hover == Some(
                    (row * old(self).grid.cols + col) as usize,
                ),
                None => final(self).hover is None,
            },
    {
        self.pointer = Some(p);
        let hit = self.grid.hit_test(p);
        let hover = match hit {
            Some((row, col)) => {
                proof {
                    lemma_dims_product(self.grid.cols as int, self.grid.rows as int);
                    lemma_grid_idx(
                        self.grid.cols as int,
                        self.grid.rows as int,
                        row as int,
                        col as int,
                    );
                }
                Some(row * self.grid.cols + col)
            },
            None => Option::<usize>::None,
        };
        self.hover = hover;
        self.grid.set_hover(hover);
    }

    /// Acts on the cell under the last known pointer position: the right
    /// button toggles its flag, the left button reveals it. With no pointer
    /// position or no cell under it, nothing happens. A double click is
    /// treated as a plain left click; chord reveal is not offered.
    pub fn on_pointer_pressed(&mut self, is_right: bool, is_double: bool)
        requires
            old(self).wf(),
        ensures
            final(self).wf(),
            final(self).pointer == old(self).pointer,
            final(self).hover == old(self).hover,
            final(self).grid.parent == old(self).grid.parent,
            (old(self).pointer matches None ==> *final(self) == *old(self)),
            (old(self).pointer matches Some(p) ==> (match old(self).grid.hit_spec(
                p.x as int,
                p.y as int,
            ) {
                None => *final(self) == *old(self),
                Some((row, col)) => if is_right {
                    board_toggled(
                        old(self).board,
                        final(self).board,
                        row * old(self).board.width + col,
                    )
                } else {
                    board_revealed(old(self).board, final(self).board, row, col)
                },
            })),
    {
        let p = match self.pointer {
            Some(p) => p,
            None => {
                return ;
            },
        };
        let hit = self.grid.hit_test(p);
        let (row, col) = match hit {
            Some(rc) => rc,
            None => {
                return ;
            },
        };
        proof {
            lemma_dims_product(self.board.width as int, self.board.height as int);
            lemma_grid_idx(self.board.width as int, self.board.height as int, row as int, col as int);
        }
        let ghost pre = *self;
        if is_right {
            let idx = row * self.board.width + col;
            let _flag_now = self.board.toggle_flag(row, col);
            let mut one: Vec<usize> = Vec::new();
            one.push(idx);
            self.grid.apply_changes(&self.board, &one);
            proof {
                crate::board::lemma_count_state_bound(self.board.cells@, CellState::Flagged);
                assert forall|i: int|
                    0 <= i < self.grid.cells@.len() implies (#[trigger] self.grid.cells@[i]).look
                    == appearance_of(self.board.cells@[i]) by {
                    if i == idx as int {
                        assert(one@[0] == idx);
                        assert(in_listu(one@, i));
                    } else {
                        if in_listu(one@, i) {
                            let k = choose|k: int| 0 <= k < one@.len() && one@[k] == i;
                            assert(false);
                        }
                        assert(self.board.cells@[i] == pre.board.cells@[i]);
                    }
                }
                assert(board_toggled(pre.board, self.board, idx as int));
            }
        } else {
            let outcome = self.board.reveal_at(row, col);
            let changed = match outcome {
                Ok(c) => c,
                Err(_) => unreached(),
            };
            self.grid.apply_changes(&self.board, &changed);
            proof {
                crate::board::lemma_count_state_bound(self.board.cells@, CellState::Flagged);
                let i = (row * pre.board.width + col) as int;
                assert forall|t: int|
                    0 <= t < self.grid.cells@.len() implies (#[trigger] self.grid.cells@[t]).look
                    == appearance_of(self.board.cells@[t]) by {
                    if !in_listu(changed@, t) {
                        if !reveal_applies(pre.board, i) {
                            assert(self.board.cells@[t] == pre.board.cells@[t]);
                        } else if pre.board.status == Status::InProgress {
                            assert(self.board.cells@[t].state == pre.board.cells@[t].state);
                            assert(self.board.cells@[t].is_mine == pre.board.cells@[t].is_mine);
                            assert(self.board.cells@[t].adjacent == pre.board.cells@[t].adjacent);
                        } else {
                            assert(self.board.cells@[t].state == pre.board.cells@[t].state);
                            assert(pre.board.cells@[t].state == CellState::Hidden
                                || pre.board.cells@[t].state == CellState::Flagged);
                        }
                    }
                }
                assert(board_revealed(pre.board, self.board, row as int, col as int));
            }
        }
    }
}

} // verus!
