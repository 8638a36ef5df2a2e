//! The board engine: the authoritative Minesweeper state machine.
//!
//! A [`Board`] owns the grid of [`Cell`]s in row-major order together with
//! the derived counters and the game [`Status`]. Mines are placed lazily on
//! the first reveal, so the first-revealed cell is never a mine. Every
//! public method preserves the well-formedness predicate [`Board::wf`],
//! which in particular ties `flag_count` and `revealed_count` to the exact
//! number of flagged and revealed cells.

use vstd::prelude::*;
use vstd::pervasive::VecAdditionalExecFns;
use vstd::arithmetic::div_mod::lemma_fundamental_div_mod;
use vstd::arithmetic::div_mod::lemma_fundamental_div_mod_converse;
use crate::rng::Prng;

verus! {

/// Largest accepted board extent along either axis.
pub const MAX_DIM: usize = 4096;

/// The lifecycle state of one board position.
#[derive(Clone, Copy, PartialEq, Eq, Structural, Debug)]
pub enum CellState {
    Hidden,
    Flagged,
    Revealed,
    Exploded,
}

/// One board position. Its coordinates are implicit: the cell at
/// `(row, col)` lives at index `row * width + col` of `Board::cells`.
#[derive(Clone, Copy, PartialEq, Eq, Structural, Debug)]
pub struct Cell {
    pub is_mine: bool,
    pub adjacent: u8,
    pub state: CellState,
}

/// The overall game status.
#[derive(Clone, Copy, PartialEq, Eq, Structural, Debug)]
pub enum Status {
    NotStarted,
    InProgress,
    Won,
    Lost,
}

/// Failures surfaced by the engine.
#[derive(Clone, Copy, PartialEq, Eq, Structural, Debug)]
pub enum GameError {
    /// The requested width/height/mine-count combination is rejected.
    InvalidConfiguration,
    /// Coordinates outside the grid.
    OutOfBounds,
}

/// Number of cells in `s` whose state is `st`.
pub open spec fn count_state(s: Seq<Cell>, st: CellState) -> int
    decreases s.len(),
{
    if s.len() == 0 {
        0
    } else {
        count_state(s.drop_last(), st) + if s.last().state == st {
            1int
        } else {
            0int
        }
    }
}

/// Number of mine cells in `s`.
pub open spec fn count_mines(s: Seq<Cell>) -> int
    decreases s.len(),
{
    if s.len() == 0 {
        0
    } else {
        count_mines(s.drop_last()) + if s.last().is_mine {
            1int
        } else {
            0int
        }
    }
}

/// Number of revealed non-mine cells in `s`.
pub open spec fn count_safe_revealed(s: Seq<Cell>) -> int
    decreases s.len(),
{
    if s.len() == 0 {
        0
    } else {
        count_safe_revealed(s.drop_last()) + if !s.last().is_mine && s.last().state
            == CellState::Revealed {
            1int
        } else {
            0int
        }
    }
}

/// How replacing the cell at `i` moves `count_state`.
pub proof fn lemma_count_state_update(s: Seq<Cell>, st: CellState, i: int, c: Cell)
    requires
        0 <= i < s.len(),
    ensures
        count_state(s.update(i, c), st) == count_state(s, st) - (if s[i].state == st {
            1int
        } else {
            0int
        }) + (if c.state == st {
            1int
        } else {
            0int
        }),
    decreases s.len(),
{
    let t = s.update(i, c);
    if i == s.len() - 1 {
        assert(t.drop_last() =~= s.drop_last());
    } else {
        assert(t.drop_last() =~= s.drop_last().update(i, c));
        lemma_count_state_update(s.drop_last(), st, i, c);
    }
}

/// How replacing the cell at `i` moves `count_mines`.
pub proof fn lemma_count_mines_update(s: Seq<Cell>, i: int, c: Cell)
    requires
        0 <= i < s.len(),
    ensures
        count_mines(s.update(i, c)) == count_mines(s) - (if s[i].is_mine {
            1int
        } else {
            0int
        }) + (if c.is_mine {
            1int
        } else {
            0int
        }),
    decreases s.len(),
{
    let t = s.update(i, c);
    if i == s.len() - 1 {
        assert(t.drop_last() =~= s.drop_last());
    } else {
        assert(t.drop_last() =~= s.drop_last().update(i, c));
        lemma_count_mines_update(s.drop_last(), i, c);
    }
}

/// How replacing the cell at `i` moves `count_safe_revealed`.
pub proof fn lemma_count_safe_revealed_update(s: Seq<Cell>, i: int, c: Cell)
    requires
        0 <= i < s.len(),
    ensures
        count_safe_revealed(s.update(i, c)) == count_safe_revealed(s) - (if !s[i].is_mine
            && s[i].state == CellState::Revealed {
            1int
        } else {
            0int
        }) + (if !c.is_mine && c.state == CellState::Revealed {
            1int
        } else {
            0int
        }),
    decreases s.len(),
{
    let t = s.update(i, c);
    if i == s.len() - 1 {
        assert(t.drop_last() =~= s.drop_last());
    } else {
        assert(t.drop_last() =~= s.drop_last().update(i, c));
        lemma_count_safe_revealed_update(s.drop_last(), i, c);
    }
}

/// `count_state` stays within `[0, len]`.
pub proof fn lemma_count_state_bound(s: Seq<Cell>, st: CellState)
    ensures
        0 <= count_state(s, st) <= s.len(),
    decreases s.len(),
{
    if s.len() > 0 {
        lemma_count_state_bound(s.drop_last(), st);
    }
}

/// `count_mines` stays within `[0, len]`.
pub proof fn lemma_count_mines_bound(s: Seq<Cell>)
    ensures
        0 <= count_mines(s) <= s.len(),
    decreases s.len(),
{
    if s.len() > 0 {
        lemma_count_mines_bound(s.drop_last());
    }
}

/// A cell holding state `st` makes its count positive.
pub proof fn lemma_count_state_pos(s: Seq<Cell>, st: CellState, i: int)
    requires
        0 <= i < s.len(),
        s[i].state == st,
    ensures
        count_state(s, st) >= 1,
    decreases s.len(),
{
    lemma_count_state_bound(s.drop_last(), st);
    if i < s.len() - 1 {
        lemma_count_state_pos(s.drop_last(), st, i);
    }
}

/// A state nobody holds is counted zero times.
pub proof fn lemma_count_state_zero(s: Seq<Cell>, st: CellState)
    requires
        forall|i: int| 0 <= i < s.len() ==> (#[trigger] s[i]).state != st,
    ensures
        count_state(s, st) == 0,
    decreases s.len(),
{
    if s.len() > 0 {
        lemma_count_state_zero(s.drop_last(), st);
    }
}

/// A board without mines has `count_mines` zero.
pub proof fn lemma_count_mines_zero(s: Seq<Cell>)
    requires
        forall|i: int| 0 <= i < s.len() ==> !(#[trigger] s[i]).is_mine,
    ensures
        count_mines(s) == 0,
    decreases s.len(),
{
    if s.len() > 0 {
        lemma_count_mines_zero(s.drop_last());
    }
}

/// There are never more revealed non-mine cells than non-mine cells.
pub proof fn lemma_count_safe_revealed_le(s: Seq<Cell>)
    ensures
        0 <= count_safe_revealed(s) <= s.len() - count_mines(s),
    decreases s.len(),
{
    if s.len() > 0 {
        lemma_count_safe_revealed_le(s.drop_last());
        lemma_count_mines_bound(s.drop_last());
    }
}

/// If every non-mine cell is revealed, the revealed non-mine count is full.
pub proof fn lemma_count_safe_revealed_full(s: Seq<Cell>)
    requires
        forall|i: int| 0 <= i < s.len() && !(#[trigger] s[i]).is_mine ==> s[i].state
            == CellState::Revealed,
    ensures
        count_safe_revealed(s) == s.len() - count_mines(s),
    decreases s.len(),
{
    if s.len() > 0 {
        assert(forall|i: int| 0 <= i < s.drop_last().len() && !(#[trigger] s.drop_last()[i]).is_mine
            ==> s.drop_last()[i].state == CellState::Revealed);
        lemma_count_safe_revealed_full(s.drop_last());
    }
}

/// If the revealed non-mine count is full, every non-mine cell is revealed.
pub proof fn lemma_full_safe_revealed(s: Seq<Cell>)
    requires
        count_safe_revealed(s) == s.len() - count_mines(s),
    ensures
        forall|i: int| 0 <= i < s.len() && !(#[trigger] s[i]).is_mine ==> s[i].state
            == CellState::Revealed,
    decreases s.len(),
{
    if s.len() > 0 {
        let d = s.drop_last();
        lemma_count_safe_revealed_le(d);
        lemma_count_mines_bound(d);
        lemma_full_safe_revealed(d);
        assert(forall|i: int| 0 <= i < d.len() ==> s[i] == d[i]);
    }
}

/// When every revealed cell is a non-mine, the two revealed counts agree.
pub proof fn lemma_count_safe_revealed_eq(s: Seq<Cell>)
    requires
        forall|i: int| 0 <= i < s.len() && (#[trigger] s[i]).state == CellState::Revealed
            ==> !s[i].is_mine,
    ensures
        count_safe_revealed(s) == count_state(s, CellState::Revealed),
    decreases s.len(),
{
    if s.len() > 0 {
        assert(forall|i: int| 0 <= i < s.drop_last().len() ==> s.drop_last()[i] == s[i]);
        lemma_count_safe_revealed_eq(s.drop_last());
    }
}

/// Row `r`, column `c` is inside a `w x h` grid.
pub open spec fn in_grid(w: int, h: int, r: int, c: int) -> bool {
    0 <= r < h && 0 <= c < w
}

/// Contribution of position `(r, c)` to a neighbor-mine count.
pub open spec fn mine_term(s: Seq<Cell>, w: int, h: int, r: int, c: int) -> int {
    if in_grid(w, h, r, c) && s[r * w + c].is_mine {
        1
    } else {
        0
    }
}

/// Number of mines among the up-to-8 neighbors of `(r, c)`.
pub open spec fn adj_mines(s: Seq<Cell>, w: int, h: int, r: int, c: int) -> int {
    mine_term(s, w, h, r - 1, c - 1) + mine_term(s, w, h, r - 1, c) + mine_term(
        s,
        w,
        h,
        r - 1,
        c + 1,
    ) + mine_term(s, w, h, r, c - 1) + mine_term(s, w, h, r, c + 1) + mine_term(
        s,
        w,
        h,
        r + 1,
        c - 1,
    ) + mine_term(s, w, h, r + 1, c) + mine_term(s, w, h, r + 1, c + 1)
}

/// `(r1, c1)` and `(r2, c2)` are distinct 8-adjacent positions.
pub open spec fn touches(r1: int, c1: int, r2: int, c2: int) -> bool {
    &&& !(r1 == r2 && c1 == c2)
    &&& r2 - 1 <= r1 <= r2 + 1
    &&& c2 - 1 <= c1 <= c2 + 1
}

/// Indices `i` and `j` of a `w x h` grid hold 8-adjacent positions.
pub open spec fn touches_idx(w: int, h: int, i: int, j: int) -> bool {
    &&& 0 <= i < w * h
    &&& 0 <= j < w * h
    &&& touches(i / w, i % w, j / w, j % w)
}

/// Accepted dimensions keep the cell count well inside `usize`.
pub proof fn lemma_dims_product(w: int, h: int)
    requires
        0 <= w <= MAX_DIM,
        0 <= h <= MAX_DIM,
    ensures
        0 <= w * h <= 0x100_0000,
{
    assert(0 <= w * h <= 0x100_0000) by (nonlinear_arith)
        requires 0 <= w <= 4096, 0 <= h <= 4096;
}

/// Position `(r, c)` of a `w x h` grid maps to index `r * w + c`, and the
/// row/column of that index are `r` and `c` again.
pub proof fn lemma_grid_idx(w: int, h: int, r: int, c: int)
    requires
        1 <= w,
        1 <= h,
        in_grid(w, h, r, c),
    ensures
        0 <= r * w + c < w * h,
        (r * w + c) / w == r,
        (r * w + c) % w == c,
{
    assert(0 <= r * w + c < w * h) by (nonlinear_arith)
        requires 1 <= w, 0 <= r < h, 0 <= c < w;
    lemma_fundamental_div_mod_converse(r * w + c, w, r, c);
}

/// Every index of a `w x h` grid decomposes into a valid row and column.
pub proof fn lemma_idx_grid(w: int, h: int, i: int)
    requires
        1 <= w,
        1 <= h,
        0 <= i < w * h,
    ensures
        in_grid(w, h, i / w, i % w),
        (i / w) * w + (i % w) == i,
{
    lemma_fundamental_div_mod(i, w);
    assert(0 <= i % w < w) by (nonlinear_arith)
        requires 1 <= w, 0 <= i;
    assert(0 <= i / w < h) by (nonlinear_arith)
        requires 1 <= w, 1 <= h, 0 <= i < w * h, i == w * (i / w) + (i % w), 0 <= i % w < w;
    assert((i / w) * w + (i % w) == i) by (nonlinear_arith)
        requires i == w * (i / w) + (i % w);
}

/// Two sequences with the same mine layout have the same neighbor counts.
pub proof fn lemma_adj_mines_same(s1: Seq<Cell>, s2: Seq<Cell>, w: int, h: int, r: int, c: int)
    requires
        1 <= w,
        1 <= h,
        s1.len() == w * h,
        s2.len() == w * h,
        forall|j: int| 0 <= j < s1.len() ==> (#[trigger] s1[j]).is_mine == s2[j].is_mine,
    ensures
        adj_mines(s1, w, h, r, c) == adj_mines(s2, w, h, r, c),
{
    lemma_mine_term_same(s1, s2, w, h, r - 1, c - 1);
    lemma_mine_term_same(s1, s2, w, h, r - 1, c);
    lemma_mine_term_same(s1, s2, w, h, r - 1, c + 1);
    lemma_mine_term_same(s1, s2, w, h, r, c - 1);
    lemma_mine_term_same(s1, s2, w, h, r, c + 1);
    lemma_mine_term_same(s1, s2, w, h, r + 1, c - 1);
    lemma_mine_term_same(s1, s2, w, h, r + 1, c);
    lemma_mine_term_same(s1, s2, w, h, r + 1, c + 1);
}

proof fn lemma_mine_term_same(s1: Seq<Cell>, s2: Seq<Cell>, w: int, h: int, r: int, c: int)
    requires
        1 <= w,
        1 <= h,
        s1.len() == w * h,
        s2.len() == w * h,
        forall|j: int| 0 <= j < s1.len() ==> (#[trigger] s1[j]).is_mine == s2[j].is_mine,
    ensures
        mine_term(s1, w, h, r, c) == mine_term(s2, w, h, r, c),
{
    if in_grid(w, h, r, c) {
        lemma_grid_idx(w, h, r, c);
    }
}

/// `(r, c)` lies in the 3x3 box around `(fr, fc)` (the cell itself and its
/// up-to-8 neighbors).
pub open spec fn near_box(fr: int, fc: int, r: int, c: int) -> bool {
    fr - 1 <= r <= fr + 1 && fc - 1 <= c <= fc + 1
}

/// Index `j` of a `w`-wide grid lies in the 3x3 box around `(fr, fc)`.
pub open spec fn near_idx(w: int, fr: int, fc: int, j: int) -> bool {
    near_box(fr, fc, j / w, j % w)
}

/// Contribution of box position `(r, c)` to `nbhd_upto`.
pub open spec fn near_term(w: int, h: int, r: int, c: int, i: int) -> int {
    if in_grid(w, h, r, c) && r * w + c < i {
        1
    } else {
        0
    }
}

/// How many indices below `i` fall in the 3x3 box around `(fr, fc)`.
/// Stated as a sum over the nine box positions, so it is at most 9.
pub open spec fn nbhd_upto(w: int, h: int, fr: int, fc: int, i: int) -> int {
    near_term(w, h, fr - 1, fc - 1, i) + near_term(w, h, fr - 1, fc, i) + near_term(
        w,
        h,
        fr - 1,
        fc + 1,
        i,
    ) + near_term(w, h, fr, fc - 1, i) + near_term(w, h, fr, fc, i) + near_term(
        w,
        h,
        fr,
        fc + 1,
        i,
    ) + near_term(w, h, fr + 1, fc - 1, i) + near_term(w, h, fr + 1, fc, i) + near_term(
        w,
        h,
        fr + 1,
        fc + 1,
        i,
    )
}

/// A box position either is `(i / w, i % w)` or indexes another cell.
proof fn lemma_near_pos(w: int, h: int, r: int, c: int, i: int)
    requires
        1 <= w,
        1 <= h,
        0 <= i,
    ensures
        in_grid(w, h, r, c) ==> ((r * w + c == i) <==> (r == i / w && c == i % w)),
{
    if in_grid(w, h, r, c) {
        lemma_grid_idx(w, h, r, c);
        lemma_fundamental_div_mod(i, w);
        assert(i == w * (i / w) + (i % w));
        if r == i / w && c == i % w {
            assert(r * w == w * r) by (nonlinear_arith);
            assert(r * w + c == i);
        }
        if r * w + c == i {
            assert(r == i / w && c == i % w);
        }
    }
}

/// Extending the scan from `i` to `i + 1` counts index `i` exactly when it
/// lies in the box.
proof fn lemma_nbhd_step(w: int, h: int, fr: int, fc: int, i: int)
    requires
        1 <= w,
        1 <= h,
        0 <= i < w * h,
    ensures
        nbhd_upto(w, h, fr, fc, i + 1) == nbhd_upto(w, h, fr, fc, i) + (if near_idx(w, fr, fc, i) {
            1int
        } else {
            0int
        }),
{
    lemma_idx_grid(w, h, i);
    lemma_near_pos(w, h, fr - 1, fc - 1, i);
    lemma_near_pos(w, h, fr - 1, fc, i);
    lemma_near_pos(w, h, fr - 1, fc + 1, i);
    lemma_near_pos(w, h, fr, fc - 1, i);
    lemma_near_pos(w, h, fr, fc, i);
    lemma_near_pos(w, h, fr, fc + 1, i);
    lemma_near_pos(w, h, fr + 1, fc - 1, i);
    lemma_near_pos(w, h, fr + 1, fc, i);
    lemma_near_pos(w, h, fr + 1, fc + 1, i);
}

/// Integer `j` occurs in the list `l`.
pub open spec fn in_listu(l: Seq<usize>, j: int) -> bool {
    exists|k: int| 0 <= k < l.len() && l[k] == j
}

/// All cell indices outside the 3x3 box around `(frow, fcol)`, ascending.
/// At most nine indices are skipped.
fn collect_ring_excluded(w: usize, h: usize, frow: usize, fcol: usize) -> (v: Vec<usize>)
    requires
        1 <= w <= MAX_DIM,
        1 <= h <= MAX_DIM,
        frow < h,
        fcol < w,
    ensures
        v@.len() >= w * h - 9,
        v@.len() <= w * h,
        forall|a: int, b: int| 0 <= a < b < v@.len() ==> v@[a] < v@[b],
        forall|k: int| 0 <= k < v@.len() ==> (#[trigger] v@[k]) < w * h && !near_idx(
            w as int,
            frow as int,
            fcol as int,
            v@[k] as int,
        ),
{
    proof {
        lemma_dims_product(w as int, h as int);
    }
    let total = w * h;
    let fr = frow as i64;
    let fc = fcol as i64;
    let mut v: Vec<usize> = Vec::new();
    let mut i: usize = 0;
    while i < total
        invariant
            i <= total,
            v@.len() == i - nbhd_upto(w as int, h as int, frow as int, fcol as int, i as int),
            0 <= nbhd_upto(w as int, h as int, frow as int, fcol as int, i as int) <= 9,
            forall|a: int, b: int| 0 <= a < b < v@.len() ==> v@[a] < v@[b],
            forall|k: int| 0 <= k < v@.len() ==> (#[trigger] v@[k]) < i && !near_idx(
                w as int,
                frow as int,
                fcol as int,
                v@[k] as int,
            ),
        decreases total - i,
    {
        let r = (i / w) as i64;
        let c = (i % w) as i64;
        proof {
            lemma_idx_grid(w as int, h as int, i as int);
            lemma_nbhd_step(w as int, h as int, frow as int, fcol as int, i as int);
        }
        let in_ring = fr - 1 <= r && r <= fr + 1 && fc - 1 <= c && c <= fc + 1;
        if !in_ring {
            v.push(i);
        }
        i = i + 1;
    }
    v
}

/// All cell indices except `fidx`, ascending.
fn collect_except(w: usize, h: usize, fidx: usize) -> (v: Vec<usize>)
    requires
        1 <= w <= MAX_DIM,
        1 <= h <= MAX_DIM,
        fidx < w * h,
    ensures
        v@.len() == w * h - 1,
        forall|a: int, b: int| 0 <= a < b < v@.len() ==> v@[a] < v@[b],
        forall|k: int| 0 <= k < v@.len() ==> (#[trigger] v@[k]) < w * h && v@[k] != fidx,
{
    proof {
        lemma_dims_product(w as int, h as int);
    }
    let total = w * h;
    let mut v: Vec<usize> = Vec::new();
    let mut i: usize = 0;
    while i < total
        invariant
            i <= total,
            fidx < total,
            v@.len() == if i > fidx {
                i - 1
            } else {
                i as int
            },
            forall|a: int, b: int| 0 <= a < b < v@.len() ==> v@[a] < v@[b],
            forall|k: int| 0 <= k < v@.len() ==> (#[trigger] v@[k]) < i && v@[k] != fidx,
        decreases total - i,
    {
        if i != fidx {
            v.push(i);
        }
        i = i + 1;
    }
    v
}

/// The authoritative game state.
#[derive(Debug)]
pub struct Board {
    pub width: usize,
    pub height: usize,
    pub mine_count: usize,
    pub cells: Vec<Cell>,
    pub flag_count: usize,
    pub revealed_count: usize,
    pub status: Status,
    pub elapsed_time: u64,
    pub rng: Prng,
}

impl Board {
    /// Number of cells.
    pub open spec fn total(self) -> int {
        self.width * self.height
    }

    /// Number of non-mine cells.
    pub open spec fn safe_total(self) -> int {
        self.total() - self.mine_count
    }

    /// Accepted dimensions and mine count.
    pub open spec fn dims_ok(self) -> bool {
        &&& 1 <= self.width <= MAX_DIM
        &&& 1 <= self.height <= MAX_DIM
        &&& 1 <= self.mine_count
        &&& self.mine_count < self.total()
    }

    /// The derived counters agree with the cells.
    pub open spec fn counts_ok(self) -> bool {
        &&& self.cells@.len() == self.total()
        &&& self.flag_count == count_state(self.cells@, CellState::Flagged)
        &&& self.revealed_count == count_state(self.cells@, CellState::Revealed)
    }

    /// Exactly `mine_count` mines lie on the board and every cell caches the
    /// exact number of neighboring mines.
    pub open spec fn placed_ok(self) -> bool {
        &&& count_mines(self.cells@) == self.mine_count
        &&& forall|i: int| 0 <= i < self.cells@.len() ==> (#[trigger] self.cells@[i]).adjacent
            == adj_mines(
            self.cells@,
            self.width as int,
            self.height as int,
            i / (self.width as int),
            i % (self.width as int),
        )
    }

    /// Before the first reveal: no mines, no counts, nothing revealed.
    pub open spec fn fresh_ok(self) -> bool {
        forall|i: int| 0 <= i < self.cells@.len() ==> {
            let c = #[trigger] self.cells@[i];
            !c.is_mine && c.adjacent == 0 && (c.state == CellState::Hidden || c.state
                == CellState::Flagged)
        }
    }

    /// No cell has exploded.
    pub open spec fn no_exploded(self) -> bool {
        forall|i: int| 0 <= i < self.cells@.len() ==> (#[trigger] self.cells@[i]).state
            != CellState::Exploded
    }

    /// Every revealed cell is a non-mine.
    pub open spec fn revealed_safe(self) -> bool {
        forall|i: int|
            0 <= i < self.cells@.len() && (#[trigger] self.cells@[i]).state == CellState::Revealed
                ==> !self.cells@[i].is_mine
    }

    /// The running-game portion of the invariant, shared by `InProgress`
    /// and `Won`.
    pub open spec fn in_play_ok(self) -> bool {
        &&& self.placed_ok()
        &&& self.no_exploded()
        &&& self.revealed_safe()
    }

    /// Exactly the cell at `e` exploded; every other mine is revealed.
    pub open spec fn exploded_at(self, e: int) -> bool {
        &&& 0 <= e < self.cells@.len()
        &&& self.cells@[e].state == CellState::Exploded
        &&& self.cells@[e].is_mine
        &&& forall|i: int| 0 <= i < self.cells@.len() && i != e ==> (#[trigger] self.cells@[i]).state
            != CellState::Exploded
        &&& forall|i: int|
            0 <= i < self.cells@.len() && i != e && (#[trigger] self.cells@[i]).is_mine
                ==> self.cells@[i].state == CellState::Revealed
    }

    /// The lost-game portion of the invariant.
    pub open spec fn lost_ok(self) -> bool {
        &&& self.placed_ok()
        &&& exists|e: int| self.exploded_at(e)
        &&& count_safe_revealed(self.cells@) < self.safe_total()
    }

    /// Well-formedness: established by the constructors, preserved by every
    /// method. Ties the counters to the cells and the status to the board.
    pub open spec fn wf(self) -> bool {
        &&& self.dims_ok()
        &&& self.counts_ok()
        &&& match self.status {
            Status::NotStarted => self.fresh_ok(),
            Status::InProgress => self.in_play_ok() && count_safe_revealed(self.cells@)
                < self.safe_total(),
            Status::Won => self.in_play_ok() && self.revealed_count == self.safe_total(),
            Status::Lost => self.lost_ok(),
        }
    }
}

/// `count_mines` only depends on the mine flags.
pub proof fn lemma_count_mines_same(s1: Seq<Cell>, s2: Seq<Cell>)
    requires
        s1.len() == s2.len(),
        forall|j: int| 0 <= j < s1.len() ==> (#[trigger] s1[j]).is_mine == s2[j].is_mine,
    ensures
        count_mines(s1) == count_mines(s2),
    decreases s1.len(),
{
    if s1.len() > 0 {
        assert(forall|j: int| 0 <= j < s1.drop_last().len() ==> (#[trigger] s1.drop_last()[j])
            == s1[j] && s2.drop_last()[j] == s2[j]);
        lemma_count_mines_same(s1.drop_last(), s2.drop_last());
    }
}

/// A board that keeps its mine layout and cached neighbor counts keeps
/// `placed_ok`, whatever happens to the cell states.
pub proof fn lemma_placed_ok_same_mines(b1: Board, b2: Board)
    requires
        b1.placed_ok(),
        b1.dims_ok(),
        b2.width == b1.width,
        b2.height == b1.height,
        b2.mine_count == b1.mine_count,
        b1.cells@.len() == b1.total(),
        b2.cells@.len() == b1.cells@.len(),
        forall|i: int| 0 <= i < b1.cells@.len() ==> (#[trigger] b2.cells@[i]).is_mine
            == b1.cells@[i].is_mine && b2.cells@[i].adjacent == b1.cells@[i].adjacent,
    ensures
        b2.placed_ok(),
{
    let w = b1.width as int;
    let h = b1.height as int;
    lemma_count_mines_same(b1.cells@, b2.cells@);
    assert forall|i: int| 0 <= i < b2.cells@.len() implies (#[trigger] b2.cells@[i]).adjacent
        == adj_mines(b2.cells@, w, h, i / w, i % w) by {
        lemma_adj_mines_same(b1.cells@, b2.cells@, w, h, i / w, i % w);
    }
}

/// A width/height/mine-count combination the engine accepts.
pub open spec fn config_ok(width: int, height: int, mine_count: int) -> bool {
    &&& 1 <= width <= MAX_DIM
    &&& 1 <= height <= MAX_DIM
    &&& 1 <= mine_count
    &&& mine_count < width * height
}

/// The cell every fresh board position starts from.
pub open spec fn blank_cell() -> Cell {
    Cell { is_mine: false, adjacent: 0, state: CellState::Hidden }
}

/// `total` copies of the blank cell.
fn blank_cells(total: usize) -> (v: Vec<Cell>)
    ensures
        v@.len() == total,
        forall|k: int| 0 <= k < total ==> #[trigger] v@[k] == blank_cell(),
{
    let mut v: Vec<Cell> = Vec::new();
    let mut i: usize = 0;
    while i < total
        invariant
            i <= total,
            v@.len() == i,
            forall|k: int| 0 <= k < i ==> #[trigger] v@[k] == blank_cell(),
        decreases total - i,
    {
        v.push(Cell { is_mine: false, adjacent: 0, state: CellState::Hidden });
        i = i + 1;
    }
    v
}

impl Board {
    /// The state a fresh `NotStarted` board must have.
    pub open spec fn is_fresh(self, width: int, height: int, mine_count: int) -> bool {
        &&& self.width == width
        &&& self.height == height
        &&& self.mine_count == mine_count
        &&& self.status == Status::NotStarted
        &&& self.flag_count == 0
        &&& self.revealed_count == 0
        &&& self.elapsed_time == 0
        &&& self.cells@.len() == width * height
        &&& forall|k: int| 0 <= k < self.cells@.len() ==> #[trigger] self.cells@[k] == blank_cell()
    }

    /// A fresh board. Fails with `InvalidConfiguration` exactly when the
    /// combination is rejected (an axis outside `[1, MAX_DIM]`, no mine, or
    /// `mine_count >= width * height`). The seed drives lazy mine placement.
    pub fn new(width: usize, height: usize, mine_count: usize, seed: u64) -> (r: Result<
        Board,
        GameError,
    >)
        ensures
            match r {
                Ok(b) => config_ok(width as int, height as int, mine_count as int) && b.wf()
                    && b.is_fresh(width as int, height as int, mine_count as int) && b.rng.state
                    == seed,
                Err(e) => e == GameError::InvalidConfiguration && !config_ok(
                    width as int,
                    height as int,
                    mine_count as int,
                ),
            },
    {
        if width < 1 || width > MAX_DIM || height < 1 || height > MAX_DIM {
            return Err(GameError::InvalidConfiguration);
        }
        proof {
            lemma_dims_product(width as int, height as int);
        }
        let total = width * height;
        if mine_count < 1 || mine_count >= total {
            return Err(GameError::InvalidConfiguration);
        }
        let cells = blank_cells(total);
        proof {
            lemma_count_state_zero(cells@, CellState::Flagged);
            lemma_count_state_zero(cells@, CellState::Revealed);
        }
        Ok(
            Board {
                width,
                height,
                mine_count,
                cells,
                flag_count: 0,
                revealed_count: 0,
                status: Status::NotStarted,
                elapsed_time: 0,
                rng: Prng::new(seed),
            },
        )
    }

    /// Replaces the board with a fresh `NotStarted` instance. On failure the
    /// prior board is left intact; the generator state always carries over.
    pub fn reset(&mut self, width: usize, height: usize, mine_count: usize) -> (r: Result<
        (),
        GameError,
    >)
        requires
            old(self).wf(),
        ensures
            final(self).wf(),
            final(self).rng == old(self).rng,
            match r {
                Ok(()) => config_ok(width as int, height as int, mine_count as int)
                    && final(self).is_fresh(width as int, height as int, mine_count as int),
                Err(e) => e == GameError::InvalidConfiguration && !config_ok(
                    width as int,
                    height as int,
                    mine_count as int,
                ) && *final(self) == *old(self),
            },
    {
        if width < 1 || width > MAX_DIM || height < 1 || height > MAX_DIM {
            return Err(GameError::InvalidConfiguration);
        }
        proof {
            lemma_dims_product(width as int, height as int);
        }
        let total = width * height;
        if mine_count < 1 || mine_count >= total {
            return Err(GameError::InvalidConfiguration);
        }
        let cells = blank_cells(total);
        proof {
            lemma_count_state_zero(cells@, CellState::Flagged);
            lemma_count_state_zero(cells@, CellState::Revealed);
        }
        self.width = width;
        self.height = height;
        self.mine_count = mine_count;
        self.cells = cells;
        self.flag_count = 0;
        self.revealed_count = 0;
        self.status = Status::NotStarted;
        self.elapsed_time = 0;
        Ok(())
    }

    /// Advances the timer by one unit, only while the game is in progress.
    pub fn tick(&mut self)
        requires
            old(self).wf(),
        ensures
            final(self).wf(),
            *final(self) == (Board { elapsed_time: final(self).elapsed_time, ..*old(self) }),
            final(self).elapsed_time == (if old(self).status == Status::InProgress
                && old(self).elapsed_time < u64::MAX {
                old(self).elapsed_time + 1
            } else {
                old(self).elapsed_time as int
            }),
    {
        if let Status::InProgress = self.status {
            if self.elapsed_time < u64::MAX {
                self.elapsed_time = self.elapsed_time + 1;
            }
        }
    }

    /// Toggles the flag on `(row, col)` and returns whether the flag is now
    /// set. Rejects out-of-bounds coordinates; on a finished game or on a
    /// cell already revealed it changes nothing and reports the current
    /// flag state.
    pub fn toggle_flag(&mut self, row: usize, col: usize) -> (r: Result<bool, GameError>)
        requires
            old(self).wf(),
        ensures
            final(self).wf(),
            final(self).width == old(self).width,
            final(self).height == old(self).height,
            final(self).mine_count == old(self).mine_count,
            final(self).status == old(self).status,
            final(self).elapsed_time == old(self).elapsed_time,
            final(self).rng == old(self).rng,
            final(self).revealed_count == old(self).revealed_count,
            if !(row < old(self).height && col < old(self).width) {
                r == Err::<bool, GameError>(GameError::OutOfBounds) && *final(self) == *old(self)
            } else {
                {
                    let i = row * old(self).width + col;
                    let c = old(self).cells@[i as int];
                    if (old(self).status == Status::NotStarted || old(self).status
                        == Status::InProgress) && (c.state == CellState::Hidden || c.state
                        == CellState::Flagged) {
                        if c.state == CellState::Hidden {
                            &&& r == Ok::<bool, GameError>(true)
                            &&& final(self).cells@ == old(self).cells@.update(
                                i as int,
                                Cell { state: CellState::Flagged, ..c },
                            )
                            &&& final(self).flag_count == old(self).flag_count + 1
                        } else {
                            &&& r == Ok::<bool, GameError>(false)
                            &&& final(self).cells@ == old(self).cells@.update(
                                i as int,
                                Cell { state: CellState::Hidden, ..c },
                            )
                            &&& final(self).flag_count == old(self).flag_count - 1
                        }
                    } else {
                        r == Ok::<bool, GameError>(c.state == CellState::Flagged) && *final(self)
                            == *old(self)
                    }
                }
            },
    {
        let w = self.width;
        let h = self.height;
        if !(row < h && col < w) {
            return Err(GameError::OutOfBounds);
        }
        proof {
            lemma_dims_product(w as int, h as int);
            lemma_grid_idx(w as int, h as int, row as int, col as int);
        }
        let i = row * w + col;
        let playing = match self.status {
            Status::NotStarted => true,
            Status::InProgress => true,
            _ => false,
        };
        let c = self.cells[i];
        if !playing || (c.state != CellState::Hidden && c.state != CellState::Flagged) {
            return Ok(c.state == CellState::Flagged);
        }
        if c.state == CellState::Hidden {
            let nc = Cell { state: CellState::Flagged, ..c };
            proof {
                lemma_count_state_bound(self.cells@, CellState::Flagged);
                lemma_count_state_update(self.cells@, CellState::Flagged, i as int, nc);
            }
            self.cells.set(i, nc);
            self.flag_count = self.flag_count + 1;
            proof {
                self.lemma_toggle_wf(*old(self), i as int, nc);
            }
            Ok(true)
        } else {
            let nc = Cell { state: CellState::Hidden, ..c };
            proof {
                lemma_count_state_pos(self.cells@, CellState::Flagged, i as int);
                lemma_count_state_update(self.cells@, CellState::Flagged, i as int, nc);
            }
            self.cells.set(i, nc);
            self.flag_count = self.flag_count - 1;
            proof {
                self.lemma_toggle_wf(*old(self), i as int, nc);
            }
            Ok(false)
        }
    }

    /// Toggling one cell between hidden and flagged preserves `wf`.
    proof fn lemma_toggle_wf(self, pre: Board, i: int, nc: Cell)
        requires
            pre.wf(),
            0 <= i < pre.cells@.len(),
            pre.status == Status::NotStarted || pre.status == Status::InProgress,
            pre.cells@[i].state == CellState::Hidden || pre.cells@[i].state == CellState::Flagged,
            nc.is_mine == pre.cells@[i].is_mine,
            nc.adjacent == pre.cells@[i].adjacent,
            nc.state == CellState::Hidden || nc.state == CellState::Flagged,
            self.cells@ == pre.cells@.update(i, nc),
            self.width == pre.width,
            self.height == pre.height,
            self.mine_count == pre.mine_count,
            self.status == pre.status,
            self.revealed_count == pre.revealed_count,
            self.flag_count == count_state(self.cells@, CellState::Flagged),
        ensures
            self.wf(),
    {
        lemma_count_state_update(pre.cells@, CellState::Flagged, i, nc);
        lemma_count_state_update(pre.cells@, CellState::Revealed, i, nc);
        lemma_count_safe_revealed_update(pre.cells@, i, nc);
        if pre.status == Status::InProgress {
            lemma_placed_ok_same_mines(pre, self);
        }
    }
}

impl Board {
    /// Contribution of position `(r, c)` to a neighbor-mine count, probed
    /// with signed coordinates so callers can step off the grid edge.
    fn probe(&self, r: i64, c: i64) -> (b: u8)
        requires
            1 <= self.width <= MAX_DIM,
            1 <= self.height <= MAX_DIM,
            self.cells@.len() == self.total(),
        ensures
            b as int == mine_term(
                self.cells@,
                self.width as int,
                self.height as int,
                r as int,
                c as int,
            ),
            b <= 1,
    {
        let w = self.width;
        let h = self.height;
        if r >= 0 && c >= 0 && r < h as i64 && c < w as i64 {
            proof {
                lemma_dims_product(w as int, h as int);
                lemma_grid_idx(w as int, h as int, r as int, c as int);
            }
            let idx = (r as usize) * w + (c as usize);
            if self.cells[idx].is_mine {
                1
            } else {
                0
            }
        } else {
            0
        }
    }

    /// The exact number of mines among the neighbors of `(row, col)`.
    fn count_adjacent(&self, row: usize, col: usize) -> (n: u8)
        requires
            1 <= self.width <= MAX_DIM,
            1 <= self.height <= MAX_DIM,
            self.cells@.len() == self.total(),
            row < self.height,
            col < self.width,
        ensures
            n as int == adj_mines(
                self.cells@,
                self.width as int,
                self.height as int,
                row as int,
                col as int,
            ),
            n <= 8,
    {
        let r = row as i64;
        let c = col as i64;
        let n = self.probe(r - 1, c - 1) + self.probe(r - 1, c) + self.probe(r - 1, c + 1)
            + self.probe(r, c - 1) + self.probe(r, c + 1) + self.probe(r + 1, c - 1) + self.probe(
            r + 1,
            c,
        ) + self.probe(r + 1, c + 1);
        n
    }

    /// Recomputes every cell's cached neighbor-mine count from the current
    /// mine layout. Touches nothing else.
    fn fill_adjacency(&mut self)
        requires
            1 <= old(self).width <= MAX_DIM,
            1 <= old(self).height <= MAX_DIM,
            old(self).cells@.len() == old(self).total(),
        ensures
            final(self).cells@.len() == old(self).cells@.len(),
            final(self).width == old(self).width,
            final(self).height == old(self).height,
            final(self).mine_count == old(self).mine_count,
            final(self).flag_count == old(self).flag_count,
            final(self).revealed_count == old(self).revealed_count,
            final(self).status == old(self).status,
            final(self).elapsed_time == old(self).elapsed_time,
            final(self).rng == old(self).rng,
            forall|j: int| 0 <= j < old(self).cells@.len() ==> (#[trigger] final(self).cells@[j]).is_mine == old(self).cells@[j].is_mine && final(self).cells@[j].state
                == old(self).cells@[j].state,
            forall|j: int| 0 <= j < old(self).cells@.len() ==> (#[trigger] final(self).cells@[j]).adjacent == adj_mines(
                final(self).cells@,
                old(self).width as int,
                old(self).height as int,
                j / (old(self).width as int),
                j % (old(self).width as int),
            ),
    {
        let w = self.width;
        let h = self.height;
        proof {
            lemma_dims_product(w as int, h as int);
        }
        let total = w * h;
        let mut i: usize = 0;
        while i < total
            invariant
                i <= total,
                total == w * h,
                w == self.width,
                h == self.height,
                1 <= w <= MAX_DIM,
                1 <= h <= MAX_DIM,
                self.cells@.len() == total,
                self.mine_count == old(self).mine_count,
                self.flag_count == old(self).flag_count,
                self.revealed_count == old(self).revealed_count,
                self.status == old(self).status,
                self.elapsed_time == old(self).elapsed_time,
                self.rng == old(self).rng,
                forall|j: int| 0 <= j < total ==> (#[trigger] self.cells@[j]).is_mine
                    == old(self).cells@[j].is_mine && self.cells@[j].state
                    == old(self).cells@[j].state,
                forall|j: int| 0 <= j < i ==> (#[trigger] self.cells@[j]).adjacent == adj_mines(
                    self.cells@,
                    w as int,
                    h as int,
                    j / (w as int),
                    j % (w as int),
                ),
            decreases total - i,
        {
            proof {
                lemma_idx_grid(w as int, h as int, i as int);
            }
            let row = i / w;
            let col = i % w;
            let n = self.count_adjacent(row, col);
            let c = self.cells[i];
            let nc = Cell { adjacent: n, ..c };
            let ghost prev = self.cells@;
            self.cells.set(i, nc);
            proof {
                assert forall|j: int| 0 <= j < i + 1 implies (#[trigger] self.cells@[j]).adjacent
                    == adj_mines(self.cells@, w as int, h as int, j / (w as int), j % (
                w as int)) by {
                    lemma_adj_mines_same(prev, self.cells@, w as int, h as int, j / (w as int), j % (
                    w as int));
                }
            }
            i = i + 1;
        }
    }

    /// Scatters `mine_count` mines over the candidate positions, choosing
    /// without replacement. Only the mine flags and the generator change.
    fn scatter_mines(&mut self, cands: Vec<usize>)
        requires
            1 <= old(self).width <= MAX_DIM,
            1 <= old(self).height <= MAX_DIM,
            old(self).cells@.len() == old(self).total(),
            old(self).mine_count <= cands@.len(),
            forall|a: int, b: int| 0 <= a < b < cands@.len() ==> cands@[a] != cands@[b],
            forall|k: int| 0 <= k < cands@.len() ==> (#[trigger] cands@[k]) < old(self).total(),
            forall|j: int| 0 <= j < old(self).cells@.len() ==> !(#[trigger] old(
                self,
            ).cells@[j]).is_mine,
        ensures
            final(self).cells@.len() == old(self).cells@.len(),
            final(self).width == old(self).width,
            final(self).height == old(self).height,
            final(self).mine_count == old(self).mine_count,
            final(self).flag_count == old(self).flag_count,
            final(self).revealed_count == old(self).revealed_count,
            final(self).status == old(self).status,
            final(self).elapsed_time == old(self).elapsed_time,
            forall|j: int| 0 <= j < old(self).cells@.len() ==> (#[trigger] final(self).cells@[j]).state == old(self).cells@[j].state && final(self).cells@[j].adjacent
                == old(self).cells@[j].adjacent,
            count_mines(final(self).cells@) == old(self).mine_count,
            forall|j: int| 0 <= j < old(self).cells@.len() && (#[trigger] final(self).cells@[j]).is_mine ==> in_listu(cands@, j),
    {
        let m = self.mine_count;
        let mut cs = cands;
        let mut k: usize = 0;
        proof {
            lemma_count_mines_zero(self.cells@);
        }
        while k < m
            invariant
                k <= m,
                m == self.mine_count,
                m <= cs@.len(),
                cs@.len() == cands@.len(),
                self.cells@.len() == old(self).cells@.len(),
                self.cells@.len() == old(self).total(),
                self.width == old(self).width,
                self.height == old(self).height,
                self.flag_count == old(self).flag_count,
                self.revealed_count == old(self).revealed_count,
                self.status == old(self).status,
                self.elapsed_time == old(self).elapsed_time,
                forall|a: int, b: int| 0 <= a < b < cs@.len() ==> cs@[a] != cs@[b],
                forall|t: int| 0 <= t < cs@.len() ==> (#[trigger] cs@[t]) < old(self).total()
                    && in_listu(cands@, cs@[t] as int),
                forall|j: int| 0 <= j < self.cells@.len() ==> (#[trigger] self.cells@[j]).state
                    == old(self).cells@[j].state && self.cells@[j].adjacent
                    == old(self).cells@[j].adjacent,
                forall|j: int| 0 <= j < self.cells@.len() ==> ((#[trigger] self.cells@[j]).is_mine
                    <==> exists|t: int| 0 <= t < k && cs@[t] == j),
                count_mines(self.cells@) == k,
            decreases m - k,
        {
            let ghost cs0 = cs@;
            let ghost cells0 = self.cells@;
            let span = cs.len() - k;
            let pick = k + self.rng.next_below(span);
            let a = cs[k];
            let b = cs[pick];
            cs.set(k, b);
            cs.set(pick, a);
            proof {
                assert(forall|t: int| 0 <= t < cs@.len() && t != k && t != pick ==> #[trigger] cs@[t]
                    == cs0[t]);
            }
            let idx = cs[k];
            assert(!self.cells@[idx as int].is_mine) by {
                if self.cells@[idx as int].is_mine {
                    let t = choose|t: int| 0 <= t < k && cs0[t] == idx as int;
                    assert(cs0[t] != cs0[pick as int]);
                }
            }
            let c = self.cells[idx];
            let nc = Cell { is_mine: true, ..c };
            proof {
                lemma_count_mines_update(self.cells@, idx as int, nc);
            }
            self.cells.set(idx, nc);
            proof {
                assert forall|j: int|
                    0 <= j < self.cells@.len() implies ((#[trigger] self.cells@[j]).is_mine
                    <==> exists|t: int| 0 <= t < k + 1 && cs@[t] == j) by {
                    if self.cells@[j].is_mine {
                        if j == idx as int {
                            assert(cs@[k as int] == j);
                            assert(0 <= k < k + 1 && cs@[k as int] == j);
                        } else {
                            assert(cells0[j].is_mine);
                            let t = choose|t: int| 0 <= t < k && cs0[t] == j;
                            assert(cs@[t] == j);
                        }
                    } else {
                        if exists|t: int| 0 <= t < k + 1 && cs@[t] == j {
                            let t = choose|t: int| 0 <= t < k + 1 && cs@[t] == j;
                            if t < k {
                                assert(cs0[t] == j);
                                assert(cells0[j].is_mine);
                                assert(false);
                            } else {
                                assert(cs@[k as int] == idx as int);
                                assert(false);
                            }
                        }
                    }
                }
            }
            k = k + 1;
        }
    }
}

/// A board with no revealed cell has `count_safe_revealed` zero.
pub proof fn lemma_count_safe_revealed_zero(s: Seq<Cell>)
    requires
        forall|i: int| 0 <= i < s.len() ==> (#[trigger] s[i]).state != CellState::Revealed,
    ensures
        count_safe_revealed(s) == 0,
    decreases s.len(),
{
    if s.len() > 0 {
        lemma_count_safe_revealed_zero(s.drop_last());
    }
}

impl Board {
    /// Lazy mine placement, run by the first reveal. Scatters the mines so
    /// that `(frow, fcol)` is never one of them — and, whenever at least
    /// nine cells can stay free, none of its neighbors is either — then
    /// caches the neighbor counts and starts the game.
    fn place_mines(&mut self, frow: usize, fcol: usize)
        requires
            old(self).wf(),
            old(self).status == Status::NotStarted,
            frow < old(self).height,
            fcol < old(self).width,
        ensures
            final(self).wf(),
            final(self).status == Status::InProgress,
            final(self).width == old(self).width,
            final(self).height == old(self).height,
            final(self).mine_count == old(self).mine_count,
            final(self).flag_count == old(self).flag_count,
            final(self).revealed_count == old(self).revealed_count,
            final(self).elapsed_time == old(self).elapsed_time,
            final(self).cells@.len() == old(self).cells@.len(),
            forall|j: int| 0 <= j < old(self).cells@.len() ==> (#[trigger] final(self).cells@[j]).state
                == old(self).cells@[j].state,
            !final(self).cells@[frow * old(self).width + fcol].is_mine,
            old(self).total() - 9 >= old(self).mine_count ==> forall|j: int|
                0 <= j < old(self).cells@.len() && near_idx(
                    old(self).width as int,
                    frow as int,
                    fcol as int,
                    j,
                ) ==> !(#[trigger] final(self).cells@[j]).is_mine,
    {
        let w = self.width;
        let h = self.height;
        proof {
            lemma_dims_product(w as int, h as int);
            lemma_grid_idx(w as int, h as int, frow as int, fcol as int);
        }
        let total = w * h;
        let fidx = frow * w + fcol;
        let ring = collect_ring_excluded(w, h, frow, fcol);
        let ghost used_ring = ring@.len() >= self.mine_count;
        if ring.len() >= self.mine_count {
            self.scatter_mines(ring);
        } else {
            let rest = collect_except(w, h, fidx);
            self.scatter_mines(rest);
        }
        let ghost mid = self.cells@;
        self.fill_adjacency();
        self.status = Status::InProgress;
        proof {
            lemma_count_mines_same(mid, self.cells@);
            let s = self.cells@;
            let pre = old(self).cells@;
            lemma_count_state_zero(pre, CellState::Revealed);
            lemma_count_state_zero(pre, CellState::Exploded);
            assert(count_state(s, CellState::Flagged) == count_state(pre, CellState::Flagged)
                && count_state(s, CellState::Revealed) == count_state(pre, CellState::Revealed)
                && count_state(s, CellState::Exploded) == count_state(pre, CellState::Exploded)) by {
                lemma_count_state_same_states(pre, s, CellState::Flagged);
                lemma_count_state_same_states(pre, s, CellState::Revealed);
                lemma_count_state_same_states(pre, s, CellState::Exploded);
            }
            lemma_count_safe_revealed_zero(s);
            assert forall|i: int|
                0 <= i < s.len() implies (#[trigger] s[i]).state != CellState::Exploded && (s[i].state
                == CellState::Revealed ==> !s[i].is_mine) by {
                assert(pre[i].state != CellState::Revealed && pre[i].state != CellState::Exploded);
            }
            // the first-revealed cell and (with room) its neighbors are safe
            if self.cells@[fidx as int].is_mine {
                assert(near_idx(w as int, frow as int, fcol as int, fidx as int));
            }
        }
    }
}

/// `count_state` only depends on the cell states.
pub proof fn lemma_count_state_same_states(s1: Seq<Cell>, s2: Seq<Cell>, st: CellState)
    requires
        s1.len() == s2.len(),
        forall|j: int| 0 <= j < s1.len() ==> (#[trigger] s1[j]).state == s2[j].state,
    ensures
        count_state(s1, st) == count_state(s2, st),
    decreases s1.len(),
{
    if s1.len() > 0 {
        assert(forall|j: int| 0 <= j < s1.drop_last().len() ==> (#[trigger] s1.drop_last()[j])
            == s1[j] && s2.drop_last()[j] == s2[j]);
        lemma_count_state_same_states(s1.drop_last(), s2.drop_last(), st);
    }
}

/// Membership in a list after a push.
pub proof fn lemma_in_listu_push(l: Seq<usize>, x: usize)
    ensures
        forall|t: int| in_listu(l.push(x), t) <==> (in_listu(l, t) || t == x),
{
    assert forall|t: int| in_listu(l.push(x), t) <==> (in_listu(l, t) || t == x) by {
        if in_listu(l.push(x), t) {
            let k = choose|k: int| 0 <= k < l.push(x).len() && l.push(x)[k] == t;
            if k < l.len() {
                assert(l[k] == t);
            }
        }
        if in_listu(l, t) {
            let k = choose|k: int| 0 <= k < l.len() && l[k] == t;
            assert(l.push(x)[k] == t);
        }
        if t == x {
            assert(l.push(x)[l.len() as int] == t);
        }
    }
}

/// No index occurs twice in `l`.
pub open spec fn distinct_u(l: Seq<usize>) -> bool {
    forall|a: int, b: int| 0 <= a < b < l.len() ==> l[a] != l[b]
}

/// `c` with its state turned to `Revealed`.
pub open spec fn reveal_cell(c: Cell) -> Cell {
    Cell { state: CellState::Revealed, ..c }
}

/// What a reveal that hits a mine at `i` does: that cell explodes, every
/// other mine is shown, nothing else moves, and `changed` lists exactly the
/// mines.
pub open spec fn loss_outcome(pre: Board, post: Board, i: int, changed: Seq<usize>) -> bool {
    &&& post.status == Status::Lost
    &&& post.width == pre.width
    &&& post.height == pre.height
    &&& post.mine_count == pre.mine_count
    &&& post.elapsed_time == pre.elapsed_time
    &&& post.cells@.len() == pre.cells@.len()
    &&& forall|j: int| 0 <= j < pre.cells@.len() ==> (#[trigger] post.cells@[j]).is_mine
        == pre.cells@[j].is_mine && post.cells@[j].adjacent == pre.cells@[j].adjacent
    &&& post.cells@[i].state == CellState::Exploded
    &&& forall|j: int| 0 <= j < pre.cells@.len() && j != i && (#[trigger] pre.cells@[j]).is_mine
        ==> post.cells@[j].state == CellState::Revealed
    &&& forall|j: int| 0 <= j < pre.cells@.len() && !(#[trigger] pre.cells@[j]).is_mine
        ==> post.cells@[j] == pre.cells@[j]
    &&& forall|j: int| 0 <= j < pre.cells@.len() ==> (in_listu(changed, j) <==> (
    #[trigger] pre.cells@[j]).is_mine)
    &&& distinct_u(changed)
    &&& forall|k: int| 0 <= k < changed.len() ==> (#[trigger] changed[k]) < pre.cells@.len()
}

/// What revealing the safe cell `i` does to the cells: the flood starting
/// at `i` turns hidden safe cells to revealed, touches nothing else, lists
/// the changed cells exactly and without repetition, stops at `i` when the
/// cell has a positive neighbor count, and leaves no newly revealed
/// zero-count cell with a revealable neighbor (the flood runs to closure).
pub open spec fn flood_outcome(pre: Board, post: Board, i: int, changed: Seq<usize>) -> bool {
    let w = pre.width as int;
    let h = pre.height as int;
    &&& post.cells@.len() == pre.cells@.len()
    &&& forall|j: int| 0 <= j < pre.cells@.len() ==> (#[trigger] post.cells@[j]).is_mine
        == pre.cells@[j].is_mine && post.cells@[j].adjacent == pre.cells@[j].adjacent
    &&& forall|j: int|
        0 <= j < pre.cells@.len() && (#[trigger] post.cells@[j]).state != pre.cells@[j].state
            ==> pre.cells@[j].state == CellState::Hidden && post.cells@[j].state
            == CellState::Revealed && !pre.cells@[j].is_mine
    &&& post.cells@[i].state == CellState::Revealed
    &&& forall|j: int| 0 <= j < pre.cells@.len() ==> (in_listu(changed, j) <==> (
    #[trigger] post.cells@[j]).state != pre.cells@[j].state)
    &&& forall|k: int| 0 <= k < changed.len() ==> (#[trigger] changed[k]) < pre.cells@.len()
    &&& distinct_u(changed)
    &&& post.revealed_count == pre.revealed_count + changed.len()
    &&& (pre.cells@[i].adjacent > 0 ==> post.cells@ == pre.cells@.update(
        i,
        reveal_cell(pre.cells@[i]),
    ))
    &&& forall|a: int, b: int|
        0 <= a < pre.cells@.len() && 0 <= b < pre.cells@.len() && post.cells@[a].state
            != pre.cells@[a].state && post.cells@[a].adjacent == 0 && #[trigger] touches_idx(
            w,
            h,
            a,
            b,
        ) && pre.cells@[b].state == CellState::Hidden && !pre.cells@[b].is_mine
            ==> post.cells@[b].state == CellState::Revealed
}

/// What revealing the safe cell `i` does to the whole board: the flood plus
/// the frame and the win rule.
pub open spec fn open_outcome(pre: Board, post: Board, i: int, changed: Seq<usize>) -> bool {
    &&& flood_outcome(pre, post, i, changed)
    &&& post.width == pre.width
    &&& post.height == pre.height
    &&& post.mine_count == pre.mine_count
    &&& post.elapsed_time == pre.elapsed_time
    &&& post.flag_count == pre.flag_count
    &&& post.status == (if post.revealed_count == pre.total() - pre.mine_count {
        Status::Won
    } else {
        Status::InProgress
    })
}

/// What lazy mine placement, triggered at `(frow, fcol)`, does: it starts
/// the game, keeps every cell state, never mines the triggering cell, and
/// spares its whole neighborhood whenever at least nine cells can stay free.
pub open spec fn placement_outcome(pre: Board, mid: Board, frow: int, fcol: int) -> bool {
    &&& mid.wf()
    &&& mid.status == Status::InProgress
    &&& mid.width == pre.width
    &&& mid.height == pre.height
    &&& mid.mine_count == pre.mine_count
    &&& mid.flag_count == pre.flag_count
    &&& mid.revealed_count == pre.revealed_count
    &&& mid.elapsed_time == pre.elapsed_time
    &&& mid.cells@.len() == pre.cells@.len()
    &&& forall|j: int| 0 <= j < pre.cells@.len() ==> (#[trigger] mid.cells@[j]).state
        == pre.cells@[j].state
    &&& !mid.cells@[frow * pre.width + fcol].is_mine
    &&& (pre.total() - 9 >= pre.mine_count ==> forall|j: int|
        0 <= j < pre.cells@.len() && near_idx(pre.width as int, frow, fcol, j) ==> !(
        #[trigger] mid.cells@[j]).is_mine)
}

impl Board {
    /// The part of `wf` that holds throughout a reveal, before the status
    /// is settled again.
    pub open spec fn flood_core(self) -> bool {
        &&& self.dims_ok()
        &&& self.counts_ok()
        &&& self.placed_ok()
        &&& self.no_exploded()
        &&& self.revealed_safe()
    }

    /// Ends the game after the mine at `idx` was revealed.
    fn reveal_loss(&mut self, idx: usize) -> (changed: Vec<usize>)
        requires
            old(self).wf(),
            old(self).status == Status::InProgress,
            idx < old(self).cells@.len(),
            old(self).cells@[idx as int].is_mine,
            old(self).cells@[idx as int].state == CellState::Hidden,
        ensures
            final(self).wf(),
            final(self).rng == old(self).rng,
            loss_outcome(*old(self), *final(self), idx as int, changed@),
    {
        proof {
            lemma_dims_product(old(self).width as int, old(self).height as int);
        }
        let total = self.cells.len();
        let mut changed: Vec<usize> = Vec::new();
        let mut j: usize = 0;
        while j < total
            invariant
                j <= total,
                total == self.cells@.len(),
                total == old(self).cells@.len(),
                total <= 0x100_0000,
                idx < total,
                self.width == old(self).width,
                self.height == old(self).height,
                self.mine_count == old(self).mine_count,
                self.status == old(self).status,
                self.elapsed_time == old(self).elapsed_time,
                self.rng == old(self).rng,
                old(self).cells@[idx as int].is_mine,
                old(self).cells@[idx as int].state == CellState::Hidden,
                forall|t: int| 0 <= t < total ==> (#[trigger] self.cells@[t]).is_mine
                    == old(self).cells@[t].is_mine && self.cells@[t].adjacent
                    == old(self).cells@[t].adjacent,
                forall|t: int| 0 <= t < total && !(t < j && old(self).cells@[t].is_mine)
                    ==> #[trigger] self.cells@[t] == old(self).cells@[t],
                forall|t: int| 0 <= t < j && (#[trigger] old(self).cells@[t]).is_mine && t
                    != idx ==> self.cells@[t].state == CellState::Revealed,
                idx < j ==> self.cells@[idx as int].state == CellState::Exploded,
                forall|t: int| 0 <= t < total ==> (in_listu(changed@, t) <==> (t < j && (
                #[trigger] old(self).cells@[t]).is_mine)),
                forall|k: int| 0 <= k < changed@.len() ==> (#[trigger] changed@[k]) < j,
                distinct_u(changed@),
                self.flag_count == count_state(self.cells@, CellState::Flagged),
                self.revealed_count == count_state(self.cells@, CellState::Revealed),
                count_safe_revealed(self.cells@) == count_safe_revealed(old(self).cells@),
            decreases total - j,
        {
            let c = self.cells[j];
            if c.is_mine {
                let ns = if j == idx {
                    CellState::Exploded
                } else {
                    CellState::Revealed
                };
                let nc = Cell { state: ns, ..c };
                proof {
                    lemma_count_state_update(self.cells@, CellState::Flagged, j as int, nc);
                    lemma_count_state_update(self.cells@, CellState::Revealed, j as int, nc);
                    lemma_count_safe_revealed_update(self.cells@, j as int, nc);
                    lemma_count_state_bound(self.cells@, CellState::Revealed);
                    if c.state == CellState::Flagged {
                        lemma_count_state_pos(self.cells@, CellState::Flagged, j as int);
                    }
                }
                self.cells.set(j, nc);
                if c.state == CellState::Flagged {
                    self.flag_count = self.flag_count - 1;
                }
                if j != idx {
                    self.revealed_count = self.revealed_count + 1;
                }
                proof {
                    lemma_in_listu_push(changed@, j);
                }
                changed.push(j);
            }
            j = j + 1;
        }
        self.status = Status::Lost;
        proof {
            let pre = *old(self);
            lemma_placed_ok_same_mines(pre, *self);
            assert(self.exploded_at(idx as int));
            assert(count_safe_revealed(self.cells@) < self.safe_total());
        }
        changed
    }
}

impl Board {
    /// One flood-fill step: reveals the cell at `(r, c)` when that position
    /// is on the grid and holds a hidden non-mine, recording it in `changed`
    /// and queueing it on `stack` when its neighbor count is zero. Off-grid
    /// or non-revealable positions are left untouched.
    fn try_reveal_at(&mut self, r: i64, c: i64, changed: &mut Vec<usize>, stack: &mut Vec<usize>)
        requires
            old(self).flood_core(),
        ensures
            final(self).flood_core(),
            final(self).width == old(self).width,
            final(self).height == old(self).height,
            final(self).mine_count == old(self).mine_count,
            final(self).status == old(self).status,
            final(self).elapsed_time == old(self).elapsed_time,
            final(self).rng == old(self).rng,
            final(self).flag_count == old(self).flag_count,
            final(self).cells@.len() == old(self).cells@.len(),
            ({
                let w = old(self).width as int;
                let h = old(self).height as int;
                let i = (r as int) * w + (c as int);
                if in_grid(w, h, r as int, c as int) && old(self).cells@[i].state
                    == CellState::Hidden && !old(self).cells@[i].is_mine {
                    &&& 0 <= i < old(self).cells@.len()
                    &&& final(self).cells@ == old(self).cells@.update(
                        i,
                        reveal_cell(old(self).cells@[i]),
                    )
                    &&& final(changed)@ == old(changed)@.push(i as usize)
                    &&& final(self).revealed_count == old(self).revealed_count + 1
                    &&& (old(self).cells@[i].adjacent == 0 ==> final(stack)@ == old(stack)@.push(
                        i as usize,
                    ))
                    &&& (old(self).cells@[i].adjacent != 0 ==> final(stack)@ == old(stack)@)
                } else {
                    &&& *final(self) == *old(self)
                    &&& final(changed)@ == old(changed)@
                    &&& final(stack)@ == old(stack)@
                }
            }),
    {
        let w = self.width;
        let h = self.height;
        if !(r >= 0 && c >= 0 && r < h as i64 && c < w as i64) {
            return ;
        }
        proof {
            lemma_dims_product(w as int, h as int);
            lemma_grid_idx(w as int, h as int, r as int, c as int);
        }
        let i = (r as usize) * w + (c as usize);
        let cell = self.cells[i];
        if !(cell.state == CellState::Hidden && !cell.is_mine) {
            return ;
        }
        let nc = Cell { state: CellState::Revealed, ..cell };
        proof {
            lemma_count_state_update(self.cells@, CellState::Flagged, i as int, nc);
            lemma_count_state_update(self.cells@, CellState::Revealed, i as int, nc);
            lemma_count_state_bound(self.cells@, CellState::Revealed);
        }
        self.cells.set(i, nc);
        self.revealed_count = self.revealed_count + 1;
        changed.push(i);
        proof {
            lemma_placed_ok_same_mines(*old(self), *self);
        }
        if cell.adjacent == 0 {
            stack.push(i);
        }
    }
}

/// Position `(r, c)` needs no further flood visit in `s`: it is off the
/// grid or holds no hidden non-mine.
pub open spec fn settled_at(s: Seq<Cell>, w: int, h: int, r: int, c: int) -> bool {
    in_grid(w, h, r, c) ==> !(s[r * w + c].state == CellState::Hidden && !s[r * w + c].is_mine)
}

impl Board {
    /// Runs one flood-fill step on every position of the 3x3 box around the
    /// already revealed cell `j`, leaving the whole box settled.
    #[verifier::rlimit(100)]
    fn reveal_neighbors(&mut self, j: usize, changed: &mut Vec<usize>, stack: &mut Vec<usize>)
        requires
            old(self).flood_core(),
            j < old(self).cells@.len(),
            old(self).cells@[j as int].state == CellState::Revealed,
        ensures
            final(self).flood_core(),
            final(self).width == old(self).width,
            final(self).height == old(self).height,
            final(self).mine_count == old(self).mine_count,
            final(self).status == old(self).status,
            final(self).elapsed_time == old(self).elapsed_time,
            final(self).rng == old(self).rng,
            final(self).flag_count == old(self).flag_count,
            final(self).cells@.len() == old(self).cells@.len(),
            forall|t: int| 0 <= t < old(self).cells@.len() ==> (#[trigger] final(self).cells@[t]).is_mine
                == old(self).cells@[t].is_mine && final(self).cells@[t].adjacent
                == old(self).cells@[t].adjacent,
            forall|t: int|
                0 <= t < old(self).cells@.len() && (#[trigger] final(self).cells@[t]).state
                    != old(self).cells@[t].state ==> old(self).cells@[t].state == CellState::Hidden
                    && final(self).cells@[t].state == CellState::Revealed
                    && !old(self).cells@[t].is_mine,
            old(changed)@.len() <= final(changed)@.len(),
            forall|k: int| 0 <= k < old(changed)@.len() ==> #[trigger] final(changed)@[k] == old(changed)@[k],
            forall|k: int| old(changed)@.len() <= k < final(changed)@.len() ==> (#[trigger] final(changed)@[k]) < old(self).cells@.len() && old(self).cells@[final(changed)@[k] as int].state
                == CellState::Hidden,
            forall|k1: int, k2: int|
                old(changed)@.len() <= k1 < k2 < final(changed)@.len() ==> final(changed)@[k1]
                    != final(changed)@[k2],
            forall|t: int| 0 <= t < old(self).cells@.len() ==> (in_listu(final(changed)@, t) <==> (
            in_listu(old(changed)@, t) || (#[trigger] final(self).cells@[t]).state
                != old(self).cells@[t].state)),
            old(stack)@.len() <= final(stack)@.len(),
            forall|k: int| 0 <= k < old(stack)@.len() ==> #[trigger] final(stack)@[k] == old(stack)@[k],
            forall|t: int| 0 <= t < old(self).cells@.len() ==> (in_listu(final(stack)@, t) <==> (
            in_listu(old(stack)@, t) || ((#[trigger] final(self).cells@[t]).state
                != old(self).cells@[t].state && final(self).cells@[t].adjacent == 0))),
            forall|k: int| old(stack)@.len() <= k < final(stack)@.len() ==> (#[trigger] final(stack)@[k]) < old(self).cells@.len(),
            final(self).revealed_count == old(self).revealed_count + (final(changed)@.len() - old(changed)@.len()),
            final(stack)@.len() - old(stack)@.len() <= final(changed)@.len() - old(changed)@.len(),
            forall|r2: int, c2: int|
                near_box(
                    (j as int) / (old(self).width as int),
                    (j as int) % (old(self).width as int),
                    r2,
                    c2,
                ) ==> #[trigger] settled_at(
                    final(self).cells@,
                    old(self).width as int,
                    old(self).height as int,
                    r2,
                    c2,
                ),
    {
        let w = self.width;
        let h = self.height;
        let ghost wi = w as int;
        let ghost hi = h as int;
        let ghost entry = *old(self);
        proof {
            lemma_idx_grid(wi, hi, j as int);
        }
        let r = (j / w) as i64;
        let c = (j % w) as i64;
        let ghost jr = (j as int) / wi;
        let ghost jc = (j as int) % wi;
        let mut t: usize = 0;
        while t < 9
            invariant
                t <= 9,
                self.flood_core(),
                self.width == entry.width,
                self.height == entry.height,
                self.mine_count == entry.mine_count,
                self.status == entry.status,
                self.elapsed_time == entry.elapsed_time,
                self.rng == entry.rng,
                self.flag_count == entry.flag_count,
                self.cells@.len() == entry.cells@.len(),
                entry.flood_core(),
                wi == entry.width as int,
                hi == entry.height as int,
                j < entry.cells@.len(),
                jr == (j as int) / wi,
                jc == (j as int) % wi,
                in_grid(wi, hi, jr, jc),
                r as int == jr,
                c as int == jc,
                entry.cells@[j as int].state == CellState::Revealed,
                forall|t2: int| 0 <= t2 < entry.cells@.len() ==> (#[trigger] self.cells@[t2]).is_mine
                    == entry.cells@[t2].is_mine && self.cells@[t2].adjacent
                    == entry.cells@[t2].adjacent,
                forall|t2: int|
                    0 <= t2 < entry.cells@.len() && (#[trigger] self.cells@[t2]).state
                        != entry.cells@[t2].state ==> entry.cells@[t2].state == CellState::Hidden
                        && self.cells@[t2].state == CellState::Revealed
                        && !entry.cells@[t2].is_mine,
                old(changed)@.len() <= changed@.len(),
                forall|k: int| 0 <= k < old(changed)@.len() ==> #[trigger] changed@[k] == old(changed)@[k],
                forall|k: int| old(changed)@.len() <= k < changed@.len() ==> (#[trigger] changed@[k])
                    < entry.cells@.len() && entry.cells@[changed@[k] as int].state
                    == CellState::Hidden,
                forall|k1: int, k2: int|
                    old(changed)@.len() <= k1 < k2 < changed@.len() ==> changed@[k1]
                        != changed@[k2],
                forall|k: int| old(changed)@.len() <= k < changed@.len()
                    ==> self.cells@[(#[trigger] changed@[k]) as int].state == CellState::Revealed,
                forall|t2: int| 0 <= t2 < entry.cells@.len() ==> (in_listu(changed@, t2) <==> (
                in_listu(old(changed)@, t2) || (#[trigger] self.cells@[t2]).state
                    != entry.cells@[t2].state)),
                old(stack)@.len() <= stack@.len(),
                forall|k: int| 0 <= k < old(stack)@.len() ==> #[trigger] stack@[k] == old(stack)@[k],
                forall|t2: int| 0 <= t2 < entry.cells@.len() ==> (in_listu(stack@, t2) <==> (
                in_listu(old(stack)@, t2) || ((#[trigger] self.cells@[t2]).state
                    != entry.cells@[t2].state && self.cells@[t2].adjacent == 0))),
                forall|k: int| old(stack)@.len() <= k < stack@.len() ==> (#[trigger] stack@[k])
                    < entry.cells@.len(),
                self.revealed_count == entry.revealed_count + (changed@.len() - old(changed)@.len()),
                stack@.len() - old(stack)@.len() <= changed@.len() - old(changed)@.len(),
                forall|t2: int|
                    0 <= t2 < t ==> #[trigger] settled_at(
                        self.cells@,
                        wi,
                        hi,
                        jr + t2 / 3 - 1,
                        jc + t2 % 3 - 1,
                    ),
            decreases 9 - t,
        {
            let dr = (t / 3) as i64;
            let dc = (t % 3) as i64;
            let ghost before = *self;
            let ghost changed_b = changed@;
            let ghost stack_b = stack@;
            self.try_reveal_at(r + dr - 1, c + dc - 1, changed, stack);
            proof {
                if changed@.len() > changed_b.len() {
                    let ni = changed@[changed@.len() - 1];
                    lemma_in_listu_push(changed_b, ni);
                    assert(changed@.len() == changed_b.len() + 1);
                    assert(changed@ =~= changed_b.push(ni));
                    assert(in_grid(wi, hi, (r + dr - 1) as int, (c + dc - 1) as int));
                    let ii = ((r + dr - 1) as int) * wi + ((c + dc - 1) as int);
                    lemma_dims_product(wi, hi);
                    assert(0 <= ii < entry.cells@.len());
                    assert(ni as int == ii);
                    assert(before.cells@[ni as int].state == CellState::Hidden);
                    assert forall|k: int|
                        old(changed)@.len() <= k < changed_b.len() implies #[trigger] changed_b[k]
                        != ni by {
                        assert(before.cells@[changed_b[k] as int].state == CellState::Revealed);
                    }
                }
                if stack@.len() > stack_b.len() {
                    lemma_in_listu_push(stack_b, stack@[stack@.len() - 1]);
                }
                assert forall|t2: int|
                    0 <= t2 < t + 1 implies #[trigger] settled_at(
                    self.cells@,
                    wi,
                    hi,
                    jr + t2 / 3 - 1,
                    jc + t2 % 3 - 1,
                ) by {
                    let rr = jr + t2 / 3 - 1;
                    let cc = jc + t2 % 3 - 1;
                    if in_grid(wi, hi, rr, cc) {
                        lemma_grid_idx(wi, hi, rr, cc);
                    }
                    if t2 == t {
                        assert((t as int) / 3 == dr as int && (t as int) % 3 == dc as int);
                        assert(settled_at(self.cells@, wi, hi, rr, cc));
                    } else {
                        assert(settled_at(before.cells@, wi, hi, rr, cc));
                        assert(settled_at(self.cells@, wi, hi, rr, cc));
                    }
                }
            }
            t = t + 1;
        }
        proof {
            assert forall|r2: int, c2: int| near_box(jr, jc, r2, c2) implies #[trigger] settled_at(
                self.cells@,
                wi,
                hi,
                r2,
                c2,
            ) by {
                let t2 = (r2 - jr + 1) * 3 + (c2 - jc + 1);
                lemma_fundamental_div_mod_converse(t2, 3, r2 - jr + 1, c2 - jc + 1);
                assert(0 <= t2 < 9);
                assert(settled_at(self.cells@, wi, hi, jr + t2 / 3 - 1, jc + t2 % 3 - 1));
                assert(jr + t2 / 3 - 1 == r2 && jc + t2 % 3 - 1 == c2);
            }
        }
    }
}

impl Board {
    /// Flood fill from the hidden safe cell `(srow, scol)`: reveals it and,
    /// when its neighbor count is zero, the reachable zero-count region with
    /// its border, eight-directionally, visiting each cell at most once.
    /// Returns exactly the changed cells.
    #[verifier::rlimit(100)]
    fn flood_reveal(&mut self, srow: usize, scol: usize) -> (changed: Vec<usize>)
        requires
            old(self).flood_core(),
            old(self).status == Status::InProgress,
            srow < old(self).height,
            scol < old(self).width,
            old(self).cells@[srow * old(self).width + scol].state == CellState::Hidden,
            !old(self).cells@[srow * old(self).width + scol].is_mine,
        ensures
            final(self).flood_core(),
            final(self).width == old(self).width,
            final(self).height == old(self).height,
            final(self).mine_count == old(self).mine_count,
            final(self).status == old(self).status,
            final(self).elapsed_time == old(self).elapsed_time,
            final(self).rng == old(self).rng,
            final(self).flag_count == old(self).flag_count,
            flood_outcome(*old(self), *final(self), srow * old(self).width + scol, changed@),
    {
        let w = self.width;
        let h = self.height;
        let ghost wi = w as int;
        let ghost hi = h as int;
        let ghost pre = *old(self);
        proof {
            lemma_dims_product(wi, hi);
            lemma_grid_idx(wi, hi, srow as int, scol as int);
        }
        let sidx = srow * w + scol;
        let mut changed: Vec<usize> = Vec::new();
        let mut stack: Vec<usize> = Vec::new();
        self.try_reveal_at(srow as i64, scol as i64, &mut changed, &mut stack);
        proof {
            lemma_in_listu_push(Seq::<usize>::empty(), sidx);
            lemma_count_state_bound(self.cells@, CellState::Revealed);
            assert(0 <= (sidx as int) && (sidx as int) < pre.cells@.len());
            assert(changed@ =~= Seq::<usize>::empty().push(sidx));
            assert(self.cells@ == pre.cells@.update(
                sidx as int,
                reveal_cell(pre.cells@[sidx as int]),
            ));
            assert forall|t: int| 0 <= t < pre.cells@.len() implies (in_listu(changed@, t) <==> (
            #[trigger] self.cells@[t]).state != pre.cells@[t].state) by {
                if in_listu(changed@, t) {
                    let k = choose|k: int| 0 <= k < changed@.len() && changed@[k] == t;
                    assert(changed@.len() == 1);
                    assert(changed@[0] == sidx);
                    assert(t == sidx as int);
                }
                if self.cells@[t].state != pre.cells@[t].state {
                    assert(t == sidx as int);
                    assert(changed@[0] == sidx);
                    assert(in_listu(changed@, t));
                }
            }
            if pre.cells@[sidx as int].adjacent == 0 {
                assert(stack@ == Seq::<usize>::empty().push(sidx));
                assert(stack@[0] == sidx);
                assert(in_listu(stack@, sidx as int));
            }
        }
        while stack.len() > 0
            invariant
                self.flood_core(),
                self.width == pre.width,
                self.height == pre.height,
                self.mine_count == pre.mine_count,
                self.status == pre.status,
                self.elapsed_time == pre.elapsed_time,
                self.rng == pre.rng,
                self.flag_count == pre.flag_count,
                self.cells@.len() == pre.cells@.len(),
                pre.flood_core(),
                wi == pre.width as int,
                hi == pre.height as int,
                srow < pre.height,
                scol < pre.width,
                sidx == srow * pre.width + scol,
                sidx < pre.cells@.len(),
                pre.cells@[sidx as int].state == CellState::Hidden,
                forall|t: int| 0 <= t < pre.cells@.len() ==> (#[trigger] self.cells@[t]).is_mine
                    == pre.cells@[t].is_mine && self.cells@[t].adjacent == pre.cells@[t].adjacent,
                forall|t: int|
                    0 <= t < pre.cells@.len() && (#[trigger] self.cells@[t]).state
                        != pre.cells@[t].state ==> pre.cells@[t].state == CellState::Hidden
                        && self.cells@[t].state == CellState::Revealed && !pre.cells@[t].is_mine,
                self.cells@[sidx as int].state == CellState::Revealed,
                forall|t: int| 0 <= t < pre.cells@.len() ==> (in_listu(changed@, t) <==> (
                #[trigger] self.cells@[t]).state != pre.cells@[t].state),
                forall|k: int| 0 <= k < changed@.len() ==> (#[trigger] changed@[k])
                    < pre.cells@.len(),
                distinct_u(changed@),
                self.revealed_count == pre.revealed_count + changed@.len(),
                changed@.len() <= pre.cells@.len(),
                pre.cells@[sidx as int].adjacent > 0 ==> self.cells@ == pre.cells@.update(
                    sidx as int,
                    reveal_cell(pre.cells@[sidx as int]),
                ),
                forall|k: int| 0 <= k < stack@.len() ==> (#[trigger] stack@[k])
                    < pre.cells@.len() && self.cells@[stack@[k] as int].state
                    == CellState::Revealed && self.cells@[stack@[k] as int].adjacent == 0
                    && pre.cells@[stack@[k] as int].state == CellState::Hidden,
                forall|a: int, b: int|
                    0 <= a < pre.cells@.len() && 0 <= b < pre.cells@.len()
                        && self.cells@[a].state != pre.cells@[a].state && self.cells@[a].adjacent
                        == 0 && !in_listu(stack@, a) && #[trigger] touches_idx(wi, hi, a, b)
                        && pre.cells@[b].state == CellState::Hidden && !pre.cells@[b].is_mine
                        ==> self.cells@[b].state == CellState::Revealed,
            decreases 9 * (self.cells@.len() - changed@.len()) + stack@.len(),
        {
            let ghost stack_pre = stack@;
            let popped = stack.pop();
            let j = match popped {
                Some(t) => t,
                None => 0,
            };
            let ghost stack1 = stack@;
            let ghost changed1 = changed@;
            let ghost s0 = self.cells@;
            proof {
                assert(stack_pre =~= stack1.push(j));
                lemma_idx_grid(wi, hi, j as int);
            }
            self.reveal_neighbors(j, &mut changed, &mut stack);
            proof {
                lemma_count_state_bound(self.cells@, CellState::Revealed);
                let s = self.cells@;
                let jr = (j as int) / wi;
                let jc = (j as int) % wi;
                // revealed cells stay revealed
                assert forall|t: int|
                    0 <= t < pre.cells@.len() && s0[t].state != pre.cells@[t].state implies (
                #[trigger] s[t]).state != pre.cells@[t].state by {
                    if s[t].state != s0[t].state {
                        assert(s0[t].state == CellState::Hidden);
                        assert(false);
                    }
                }
                // the changed list still lists exactly the changed cells
                assert forall|t: int|
                    0 <= t < pre.cells@.len() implies (in_listu(changed@, t) <==> (
                #[trigger] s[t]).state != pre.cells@[t].state) by {
                    if s[t].state != pre.cells@[t].state {
                        if s0[t].state != pre.cells@[t].state {
                            assert(in_listu(changed1, t));
                            let k = choose|k: int| 0 <= k < changed1.len() && changed1[k] == t;
                            assert(changed@[k] == t);
                        }
                    }
                }
                // and still without repetition
                assert forall|k1: int, k2: int|
                    0 <= k1 < k2 < changed@.len() implies changed@[k1] != changed@[k2] by {
                    if k2 < changed1.len() {
                    } else if k1 >= changed1.len() {
                    } else {
                        assert(changed@[k1] == changed1[k1]);
                        assert(in_listu(changed1, changed1[k1] as int));
                        assert(s0[changed1[k1] as int].state != pre.cells@[changed1[k1] as int].state);
                        assert(s0[changed1[k1] as int].state == CellState::Revealed);
                        assert(s0[changed@[k2] as int].state == CellState::Hidden);
                    }
                }
                // every queued cell is a revealed zero cell the flood opened
                assert forall|k: int|
                    0 <= k < stack@.len() implies (#[trigger] stack@[k]) < pre.cells@.len()
                    && s[stack@[k] as int].state == CellState::Revealed
                    && s[stack@[k] as int].adjacent == 0 && pre.cells@[stack@[k] as int].state
                    == CellState::Hidden by {
                    let t = stack@[k] as int;
                    if k < stack1.len() {
                        assert(stack@[k] == stack1[k]);
                    } else {
                        assert(in_listu(stack@, t));
                    }
                }
                // a positive start count means the loop had nothing to do
                if pre.cells@[sidx as int].adjacent > 0 {
                    assert(s0[j as int].adjacent == 0);
                    assert(s0 == pre.cells@.update(sidx as int, reveal_cell(pre.cells@[sidx as int])));
                    assert(s0[j as int].state != pre.cells@[j as int].state);
                    assert(j as int == sidx as int);
                    assert(false);
                }
                // closure is restored
                assert forall|a: int, b: int|
                    0 <= a < pre.cells@.len() && 0 <= b < pre.cells@.len() && s[a].state
                        != pre.cells@[a].state && s[a].adjacent == 0 && !in_listu(stack@, a)
                        && #[trigger] touches_idx(wi, hi, a, b) && pre.cells@[b].state
                        == CellState::Hidden && !pre.cells@[b].is_mine implies s[b].state
                    == CellState::Revealed by {
                    lemma_idx_grid(wi, hi, a);
                    lemma_idx_grid(wi, hi, b);
                    if a == j as int {
                        assert(near_box(jr, jc, b / wi, b % wi));
                        assert(settled_at(s, wi, hi, b / wi, b % wi));
                        assert(s[b].state != CellState::Hidden);
                        if s[b].state != pre.cells@[b].state {
                        } else {
                            assert(false);
                        }
                    } else if s[a].state != s0[a].state {
                        assert(in_listu(stack@, a));
                        assert(false);
                    } else {
                        assert(s0[a].state != pre.cells@[a].state);
                        assert(!in_listu(stack1, a));
                        assert(!in_listu(stack_pre, a)) by {
                            if in_listu(stack_pre, a) {
                                let k = choose|k: int|
                                    0 <= k < stack_pre.len() && stack_pre[k] == a;
                                if k < stack1.len() {
                                    assert(stack1[k] == a);
                                } else {
                                    assert(a == j as int);
                                }
                            }
                        }
                        assert(s0[b].state == CellState::Revealed);
                        assert(s[b].state == CellState::Revealed) by {
                            if s[b].state != s0[b].state {
                                assert(s0[b].state == CellState::Hidden);
                            }
                        }
                    }
                }
            }
        }
        proof {
            assert(in_listu(changed@, sidx as int));
        }
        changed
    }
}

/// What a first reveal does: some lazy placement ran, and the reveal then
/// flooded the placed board.
pub open spec fn first_reveal_outcome(pre: Board, post: Board, row: int, col: int, changed: Seq<
    usize,
>) -> bool {
    exists|mid: Board|
        placement_outcome(pre, mid, row, col) && #[trigger] open_outcome(
            mid,
            post,
            row * pre.width + col,
            changed,
        )
}

/// A reveal at index `i` acts (rather than being a no-op): the game is
/// still open and the target cell is hidden.
pub open spec fn reveal_applies(pre: Board, i: int) -> bool {
    &&& (pre.status == Status::NotStarted || pre.status == Status::InProgress)
    &&& pre.cells@[i].state == CellState::Hidden
}

impl Board {
    /// Reveals `(row, col)`. On the first reveal of a fresh board this
    /// first places the mines, sparing the target (and, with room, its
    /// neighbors), so a first reveal never loses. Revealing a mine ends the
    /// game; revealing a safe cell floods from it and wins the game exactly
    /// when every safe cell is now revealed. Returns the changed cells; on
    /// a finished game or a non-hidden target it changes nothing and
    /// returns none.
    #[verifier::rlimit(100)]
    #[verifier::spinoff_prover]
    pub fn reveal_at(&mut self, row: usize, col: usize) -> (r: Result<Vec<usize>, GameError>)
        requires
            old(self).wf(),
        ensures
            final(self).wf(),
            final(self).width == old(self).width,
            final(self).height == old(self).height,
            final(self).mine_count == old(self).mine_count,
            final(self).elapsed_time == old(self).elapsed_time,
            ((row < old(self).height && col < old(self).width) <==> (r matches Ok(_))),
            (r matches Err(e) ==> e == GameError::OutOfBounds && *final(self) == *old(self)),
            (r matches Ok(changed) ==> (!reveal_applies(
                *old(self),
                row * old(self).width + col,
            ) ==> *final(self) == *old(self) && changed@.len() == 0)),
            (r matches Ok(changed) ==> (reveal_applies(*old(self), row * old(self).width + col)
                && old(self).status == Status::InProgress && old(self).cells@[row * old(
                self,
            ).width + col].is_mine ==> loss_outcome(
                *old(self),
                *final(self),
                row * old(self).width + col,
                changed@,
            ) && final(self).rng == old(self).rng)),
            (r matches Ok(changed) ==> (reveal_applies(*old(self), row * old(self).width + col)
                && old(self).status == Status::InProgress && !old(self).cells@[row * old(
                self,
            ).width + col].is_mine ==> open_outcome(
                *old(self),
                *final(self),
                row * old(self).width + col,
                changed@,
            ) && final(self).rng == old(self).rng)),
            (r matches Ok(changed) ==> (reveal_applies(*old(self), row * old(self).width + col)
                && old(self).status == Status::NotStarted ==> final(self).status != Status::Lost
                && first_reveal_outcome(
                    *old(self),
                    *final(self),
                    row as int,
                    col as int,
                    changed@,
                ))),
    {
        let w = self.width;
        let h = self.height;
        if !(row < h && col < w) {
            return Err(GameError::OutOfBounds);
        }
        proof {
            lemma_dims_product(w as int, h as int);
            lemma_grid_idx(w as int, h as int, row as int, col as int);
        }
        let i = row * w + col;
        let playing = match self.status {
            Status::NotStarted => true,
            Status::InProgress => true,
            _ => false,
        };
        if !playing || !(self.cells[i].state == CellState::Hidden) {
            return Ok(Vec::new());
        }
        let was_fresh = match self.status {
            Status::NotStarted => true,
            _ => false,
        };
        if was_fresh {
            self.place_mines(row, col);
        }
        let ghost mid = *self;
        if self.cells[i].is_mine {
            let changed = self.reveal_loss(i);
            return Ok(changed);
        }
        let changed = self.flood_reveal(row, col);
        let ghost flooded = *self;
        let total = w * h;
        if self.revealed_count == total - self.mine_count {
            self.status = Status::Won;
        }
        proof {
            if self.status != Status::Won {
                lemma_count_safe_revealed_eq(self.cells@);
                lemma_count_safe_revealed_le(self.cells@);
            }
            if was_fresh {
                assert(placement_outcome(*old(self), mid, row as int, col as int));
                assert(open_outcome(mid, *self, row * old(self).width + col, changed@));
                assert(first_reveal_outcome(*old(self), *self, row as int, col as int, changed@));
            } else {
                assert(flood_outcome(*old(self), *self, i as int, changed@));
                assert(open_outcome(*old(self), *self, i as int, changed@));
                assert(i as int == row * old(self).width + col);
                assert(open_outcome(*old(self), *self, row * old(self).width + col, changed@));
                assert(self.rng == old(self).rng);
            }
            assert(self.wf());
        }
        Ok(changed)
    }
}

/// Positions of `mines` all lie on a `width x height` grid.
pub open spec fn mines_in_bounds(width: int, height: int, mines: Seq<(usize, usize)>) -> bool {
    forall|k: int| 0 <= k < mines.len() ==> (#[trigger] mines[k]).0 < height && mines[k].1 < width
}

/// No two entries of `mines` name the same position.
pub open spec fn mines_distinct(mines: Seq<(usize, usize)>) -> bool {
    forall|k1: int, k2: int|
        0 <= k1 < k2 < mines.len() ==> !((#[trigger] mines[k1]).0 == (#[trigger] mines[k2]).0
            && mines[k1].1 == mines[k2].1)
}

impl Board {
    /// A board with an explicit mine layout, already past placement and in
    /// progress — the deterministic counterpart of a first reveal's lazy
    /// placement, for replays and fixed scenarios. The seed only feeds
    /// later `reset` games.
    pub fn with_mines(width: usize, height: usize, mines: &Vec<(usize, usize)>, seed: u64) -> (r:
        Result<Board, GameError>)
        ensures
            ({
                let basic = 1 <= width && width <= MAX_DIM && 1 <= height && height <= MAX_DIM && 1
                    <= mines@.len() && mines@.len() < width * height;
                match r {
                    Ok(b) => {
                        &&& basic
                        &&& mines_in_bounds(width as int, height as int, mines@)
                        &&& mines_distinct(mines@)
                        &&& b.wf()
                        &&& b.status == Status::InProgress
                        &&& b.width == width
                        &&& b.height == height
                        &&& b.mine_count == mines@.len()
                        &&& b.flag_count == 0
                        &&& b.revealed_count == 0
                        &&& b.elapsed_time == 0
                        &&& b.rng.state == seed
                        &&& b.cells@.len() == width * height
                        &&& forall|j: int| 0 <= j < b.cells@.len() ==> (#[trigger] b.cells@[j]).state
                            == CellState::Hidden
                        &&& forall|j: int| 0 <= j < b.cells@.len() ==> ((#[trigger] b.cells@[j]).is_mine
                            <==> exists|k: int|
                            0 <= k < mines@.len() && (#[trigger] mines@[k]).0 * width + mines@[k].1
                                == j)
                    },
                    Err(e) => {
                        &&& (e == GameError::OutOfBounds <==> (basic && !mines_in_bounds(
                            width as int,
                            height as int,
                            mines@,
                        )))
                        &&& (e == GameError::InvalidConfiguration <==> (!basic || (mines_in_bounds(
                            width as int,
                            height as int,
                            mines@,
                        ) && !mines_distinct(mines@))))
                    },
                }
            }),
    {
        if width < 1 || width > MAX_DIM || height < 1 || height > MAX_DIM {
            return Err(GameError::InvalidConfiguration);
        }
        proof {
            lemma_dims_product(width as int, height as int);
        }
        let total = width * height;
        let n = mines.len();
        if n < 1 || n >= total {
            return Err(GameError::InvalidConfiguration);
        }
        let mut k: usize = 0;
        while k < n
            invariant
                k <= n,
                n == mines@.len(),
                forall|t: int| 0 <= t < k ==> (#[trigger] mines@[t]).0 < height && mines@[t].1
                    < width,
            decreases n - k,
        {
            let (mr, mc) = mines[k];
            if !(mr < height && mc < width) {
                return Err(GameError::OutOfBounds);
            }
            k = k + 1;
        }
        let cells = blank_cells(total);
        proof {
            lemma_count_mines_zero(cells@);
            lemma_count_state_zero(cells@, CellState::Flagged);
            lemma_count_state_zero(cells@, CellState::Revealed);
        }
        let mut b = Board {
            width,
            height,
            mine_count: n,
            cells,
            flag_count: 0,
            revealed_count: 0,
            status: Status::InProgress,
            elapsed_time: 0,
            rng: Prng::new(seed),
        };
        let mut k: usize = 0;
        while k < n
            invariant
                k <= n,
                n == mines@.len(),
                n == b.mine_count,
                b.width == width,
                b.height == height,
                1 <= width <= MAX_DIM,
                1 <= height <= MAX_DIM,
                total == width * height,
                b.cells@.len() == total,
                n < total,
                b.flag_count == 0,
                b.revealed_count == 0,
                b.status == Status::InProgress,
                b.elapsed_time == 0,
                b.rng.state == seed,
                mines_in_bounds(width as int, height as int, mines@),
                forall|t: int| 0 <= t < b.cells@.len() ==> (#[trigger] b.cells@[t]).state
                    == CellState::Hidden && b.cells@[t].adjacent == 0,
                forall|j: int| 0 <= j < b.cells@.len() ==> ((#[trigger] b.cells@[j]).is_mine <==>
                    exists|t: int|
                    0 <= t < k && (#[trigger] mines@[t]).0 * width + mines@[t].1 == j),
                forall|t1: int, t2: int|
                    0 <= t1 < t2 < k ==> (#[trigger] mines@[t1]).0 * width + mines@[t1].1 != (
                    #[trigger] mines@[t2]).0 * width + mines@[t2].1,
                count_mines(b.cells@) == k,
            decreases n - k,
        {
            let (mr, mc) = mines[k];
            proof {
                lemma_grid_idx(width as int, height as int, mr as int, mc as int);
            }
            let idx = mr * width + mc;
            let c = b.cells[idx];
            if c.is_mine {
                proof {
                    let t = choose|t: int|
                        0 <= t < k && (#[trigger] mines@[t]).0 * width + mines@[t].1 == idx as int;
                    lemma_grid_idx(
                        width as int,
                        height as int,
                        mines@[t].0 as int,
                        mines@[t].1 as int,
                    );
                    assert(mines@[t].0 == mr && mines@[t].1 == mc);
                    assert(!mines_distinct(mines@));
                }
                return Err(GameError::InvalidConfiguration);
            }
            let nc = Cell { is_mine: true, ..c };
            proof {
                lemma_count_mines_update(b.cells@, idx as int, nc);
            }
            b.cells.set(idx, nc);
            proof {
                assert forall|j: int|
                    0 <= j < b.cells@.len() implies ((#[trigger] b.cells@[j]).is_mine <==> exists|
                    t: int,
                |
                    0 <= t < k + 1 && (#[trigger] mines@[t]).0 * width + mines@[t].1 == j) by {
                    if b.cells@[j].is_mine {
                        if j == idx as int {
                            assert((mines@[k as int]).0 * width + mines@[k as int].1 == j);
                        }
                    } else {
                        if exists|t: int|
                            0 <= t < k + 1 && (#[trigger] mines@[t]).0 * width + mines@[t].1 == j {
                            let t = choose|t: int|
                                0 <= t < k + 1 && (#[trigger] mines@[t]).0 * width + mines@[t].1
                                    == j;
                            if t < k {
                                assert(false);
                            } else {
                                assert(j == idx as int);
                                assert(false);
                            }
                        }
                    }
                }
                assert forall|t1: int, t2: int|
                    0 <= t1 < t2 < k + 1 implies (#[trigger] mines@[t1]).0 * width + mines@[t1].1
                    != (#[trigger] mines@[t2]).0 * width + mines@[t2].1 by {
                    if t2 == k {
                        lemma_grid_idx(
                            width as int,
                            height as int,
                            mines@[t1].0 as int,
                            mines@[t1].1 as int,
                        );
                    }
                }
            }
            k = k + 1;
        }
        let ghost marked = b.cells@;
        b.fill_adjacency();
        proof {
            lemma_count_mines_same(marked, b.cells@);
            assert(forall|j: int| 0 <= j < b.cells@.len() ==> (#[trigger] b.cells@[j]).state
                == CellState::Hidden);
            lemma_count_state_zero(b.cells@, CellState::Flagged);
            lemma_count_state_zero(b.cells@, CellState::Revealed);
            lemma_count_safe_revealed_zero(b.cells@);
            assert forall|k1: int, k2: int|
                0 <= k1 < k2 < mines@.len() implies !((#[trigger] mines@[k1]).0 == (
            #[trigger] mines@[k2]).0 && mines@[k1].1 == mines@[k2].1) by {
                if mines@[k1].0 == mines@[k2].0 && mines@[k1].1 == mines@[k2].1 {
                    assert(mines@[k1].0 * width + mines@[k1].1 == mines@[k2].0 * width
                        + mines@[k2].1);
                }
            }
            assert(b.counts_ok());
            assert(b.in_play_ok());
            assert(b.wf());
        }
        Ok(b)
    }
}

/// The derived counters are exact on every well-formed board: after any
/// sequence of reveals and flag toggles, `flag_count` is the number of
/// flagged cells and `revealed_count` the number of revealed ones.
pub proof fn lemma_counters_exact(b: Board)
    requires
        b.wf(),
    ensures
        b.flag_count == count_state(b.cells@, CellState::Flagged),
        b.revealed_count == count_state(b.cells@, CellState::Revealed),
{
}

/// The board is won exactly when every non-mine cell is revealed.
pub proof fn lemma_won_iff_all_safe_revealed(b: Board)
    requires
        b.wf(),
    ensures
        (b.status == Status::Won) <==> (forall|i: int|
            0 <= i < b.cells@.len() && !(#[trigger] b.cells@[i]).is_mine ==> b.cells@[i].state
                == CellState::Revealed),
{
    let s = b.cells@;
    match b.status {
        Status::Won => {
            lemma_count_safe_revealed_eq(s);
            lemma_full_safe_revealed(s);
        },
        Status::NotStarted => {
            lemma_count_mines_bound(s);
            assert(s.len() >= 2);
            assert(!s[0].is_mine && s[0].state != CellState::Revealed);
        },
        Status::InProgress => {
            if forall|i: int|
                0 <= i < s.len() && !(#[trigger] s[i]).is_mine ==> s[i].state
                    == CellState::Revealed {
                lemma_count_safe_revealed_full(s);
            }
        },
        Status::Lost => {
            if forall|i: int|
                0 <= i < s.len() && !(#[trigger] s[i]).is_mine ==> s[i].state
                    == CellState::Revealed {
                lemma_count_safe_revealed_full(s);
            }
        },
    }
}

} // verus!
