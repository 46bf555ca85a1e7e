//! The game engine: the board, the falling piece, gravity, line clears,
//! scoring and the game-over rule.

use vstd::prelude::*;

use crate::shapes::{
    coords_at, coords_view, lemma_home_cell, next_dir_of, shape_cells, tag_of, Dir, Shape,
    ShapeTrait, ShapeType,
};

verus! {

/// Board width in cells.
pub const WIDTH: usize = 12;

/// Board height in cells.
pub const HEIGHT: usize = 20;

/// Side of the square preview grid.
pub const PSIZE: usize = 4;

/// Milliseconds between gravity steps.
pub const FALL_RATE: u64 = 750;

/// A command for the falling piece.
#[derive(Debug, PartialEq, Eq, Structural)]
pub enum Move {
    Left,
    Right,
    Down,
    Rotate,
}

/// Multiplier of the linear congruential step that draws piece kinds.
pub const RAND_MUL: u64 = 6364136223846793005;

/// Increment of the linear congruential step that draws piece kinds.
pub const RAND_INC: u64 = 1442695040888963407;

/// Seed of the kind-drawing sequence of a fresh game.
pub const RAND_SEED: u64 = 0x93d1_6b5c_8a70_f241;

/// The linear congruential step behind `Game`'s piece drawing.
pub open spec fn next_rand(r: u64) -> u64 {
    vstd::wrapping::u64_specs::wrapping_add(
        vstd::wrapping::u64_specs::wrapping_mul(r, RAND_MUL),
        RAND_INC,
    )
}

/// The piece kind drawn from one generator value.
pub open spec fn kind_of_rand(r: u64) -> ShapeType {
    let i: u64 = (r / 0x1_0000) % 7;
    if i == 0 {
        ShapeType::I
    } else if i == 1 {
        ShapeType::J
    } else if i == 2 {
        ShapeType::L
    } else if i == 3 {
        ShapeType::O
    } else if i == 4 {
        ShapeType::S
    } else if i == 5 {
        ShapeType::T
    } else {
        ShapeType::Z
    }
}

/// True of a cell that lies on the visible board.
pub open spec fn in_bounds(c: (int, int)) -> bool {
    0 <= c.0 < WIDTH && 0 <= c.1 < HEIGHT
}

/// The row-major index of an on-board cell.
pub open spec fn cell_index(c: (int, int)) -> int {
    c.1 * (WIDTH as int) + c.0
}

/// True when some cell of `cs` lies on the board at flat index `p`.
pub open spec fn covers(cs: Seq<(int, int)>, p: int) -> bool {
    exists|i: int| 0 <= i < cs.len() && in_bounds(#[trigger] cs[i]) && cell_index(cs[i]) == p
}

/// True when one of the first `n` cells of `cs` lies on the board at flat
/// index `p`.
pub open spec fn covers_prefix(cs: Seq<(int, int)>, n: int, p: int) -> bool {
    exists|i: int| 0 <= i < n && i < cs.len() && in_bounds(#[trigger] cs[i]) && cell_index(cs[i]) == p
}

/// The board after writing `val` into every in-bounds cell of `cs`;
/// out-of-bounds cells (negative `y` included) are silently skipped.
pub open spec fn stamp_cells(b: Seq<u8>, cs: Seq<(int, int)>, val: u8) -> Seq<u8> {
    Seq::new(b.len(), |p: int| if covers(cs, p) { val } else { b[p] })
}

/// One candidate cell is acceptable: it must lie inside the board
/// horizontally and above its floor, and, unless it is above the visible
/// top or part of the old footprint, the board must be empty there.
pub open spec fn cell_valid(b: Seq<u8>, olds: Seq<(int, int)>, c: (int, int)) -> bool {
    &&& 0 <= c.0 < WIDTH
    &&& c.1 < HEIGHT
    &&& (c.1 < 0 || olds.contains(c) || b[cell_index(c)] == 0)
}

/// A candidate placement is valid iff every one of its cells is
/// acceptable given the piece's old footprint.
pub open spec fn placement_valid(b: Seq<u8>, olds: Seq<(int, int)>, news: Seq<(int, int)>) -> bool {
    forall|i: int| 0 <= i < news.len() ==> cell_valid(b, olds, #[trigger] news[i])
}

/// The piece after one accepted command: Left, Right and Down translate
/// the origin, Rotate advances the facing and keeps the origin.
pub open spec fn moved_shape(s: Shape, m: Move) -> Shape {
    match m {
        Move::Left => Shape { x: (s.x - 1) as i32, ..s },
        Move::Right => Shape { x: (s.x + 1) as i32, ..s },
        Move::Down => Shape { y: (s.y + 1) as i32, ..s },
        Move::Rotate => Shape { dir: next_dir_of(s.dir), ..s },
    }
}

/// The candidate footprint a command asks for: the piece's cells at the
/// translated origin, or at the next facing for Rotate.
pub open spec fn cand_cells(s: Shape, m: Move) -> Seq<(int, int)> {
    match m {
        Move::Left => shape_cells(s.shape_type, s.dir, s.x - 1, s.y as int),
        Move::Right => shape_cells(s.shape_type, s.dir, s.x + 1, s.y as int),
        Move::Down => shape_cells(s.shape_type, s.dir, s.x as int, s.y + 1),
        Move::Rotate => shape_cells(s.shape_type, next_dir_of(s.dir), s.x as int, s.y as int),
    }
}

/// The row at which a piece dropped from origin row `y` comes to rest on
/// board `b`: the piece keeps taking Down steps while the candidate
/// footprint one row lower is valid against its own current footprint.
pub open spec fn dropped_y(b: Seq<u8>, kind: ShapeType, dir: Dir, x: int, y: int) -> int
    decreases (HEIGHT as int) - y,
{
    if y >= HEIGHT as int {
        y
    } else if placement_valid(
        b,
        shape_cells(kind, dir, x, y),
        shape_cells(kind, dir, x, y + 1),
    ) {
        dropped_y(b, kind, dir, x, y + 1)
    } else {
        y
    }
}

/// Loop measure for the instant drop: a bound on the Down steps left.
spec fn drop_fuel(y: int) -> int {
    if y > HEIGHT as int {
        0
    } else {
        HEIGHT as int + 1 - y
    }
}

/// A row is completed iff every one of its `WIDTH` cells is non-zero.
pub open spec fn row_full(b: Seq<u8>, y: int) -> bool {
    forall|x: int| 0 <= x < WIDTH ==> #[trigger] b[y * (WIDTH as int) + x] != 0
}

/// The completed rows among rows `0 .. n`, in increasing order.
pub open spec fn full_rows_below(b: Seq<u8>, n: int) -> Seq<int>
    decreases n,
{
    if n <= 0 {
        Seq::empty()
    } else if row_full(b, n - 1) {
        full_rows_below(b, n - 1).push(n - 1)
    } else {
        full_rows_below(b, n - 1)
    }
}

/// How many rows of the board are completed.
pub open spec fn cleared_count(b: Seq<u8>) -> int {
    full_rows_below(b, HEIGHT as int).len() as int
}

/// The score bonus for clearing `n` rows in one lock event.  The table is
/// deliberately non-linear.
pub open spec fn bonus_of(n: int) -> u64 {
    if n <= 0 {
        0
    } else if n == 1 {
        800
    } else if n == 2 {
        1200
    } else if n == 3 {
        1800
    } else if n == 4 {
        2000
    } else {
        3200
    }
}

/// Score addition; it sticks at `u64::MAX` rather than wrap.
pub open spec fn add_score(s: u64, b: u64) -> u64 {
    if s + b > u64::MAX {
        u64::MAX
    } else {
        (s + b) as u64
    }
}

/// The board with every completed row zeroed.
pub open spec fn zero_full_rows(b: Seq<u8>) -> Seq<u8> {
    Seq::new(b.len(), |p: int| if row_full(b, p / (WIDTH as int)) { 0 } else { b[p] })
}

/// The board after copying each of rows `0 .. y` one row down, from the
/// row just above `y` upward; row 0 keeps its old content.
pub open spec fn shift_rows_above(b: Seq<u8>, y: int) -> Seq<u8> {
    Seq::new(
        b.len(),
        |p: int| if 1 <= p / (WIDTH as int) <= y { b[p - (WIDTH as int)] } else { b[p] },
    )
}

/// The shifts for all rows of `rows`, applied in order.
pub open spec fn cascade(b: Seq<u8>, rows: Seq<int>) -> Seq<u8>
    decreases rows.len(),
{
    if rows.len() == 0 {
        b
    } else {
        cascade(shift_rows_above(b, rows[0]), rows.subrange(1, rows.len() as int))
    }
}

/// The whole row-clear step: completed rows are zeroed, then the cells
/// above each of them are shifted down, topmost completed row first.
pub open spec fn after_clear(b: Seq<u8>) -> Seq<u8> {
    cascade(zero_full_rows(b), full_rows_below(b, HEIGHT as int))
}

/// The mathematical reading of an executable row-number list.
pub open spec fn rows_view(v: Seq<usize>) -> Seq<int> {
    v.map_values(|r: usize| r as int)
}

/// True when one of the first `n` entries of `rows` is the row `r`.
pub open spec fn row_in_prefix(rows: Seq<int>, n: int, r: int) -> bool {
    exists|j: int| 0 <= j < n && j < rows.len() && #[trigger] rows[j] == r
}

/// The completed rows of `b` below `n` are exactly the rows of `0 .. n`
/// that are full, listed in increasing order.
proof fn lemma_full_rows_below_props(b: Seq<u8>, n: int)
    ensures
        forall|j: int|
            0 <= j < full_rows_below(b, n).len() ==> 0 <= #[trigger] full_rows_below(b, n)[j] < n
                && row_full(b, full_rows_below(b, n)[j]),
        forall|r: int| 0 <= r < n && row_full(b, r) ==> full_rows_below(b, n).contains(r),
    decreases n,
{
    if n > 0 {
        lemma_full_rows_below_props(b, n - 1);
        let prev = full_rows_below(b, n - 1);
        assert forall|r: int| 0 <= r < n && row_full(b, r) implies full_rows_below(b, n).contains(
            r,
        ) by {
            if r == n - 1 {
                assert(full_rows_below(b, n)[prev.len() as int] == r);
            } else {
                assert(prev.contains(r));
                let k = choose|k: int| 0 <= k < prev.len() && prev[k] == r;
                assert(full_rows_below(b, n)[k] == r);
            }
        }
    }
}

/// The canonical 4x4 silhouette depicting kind `k` in the preview grid:
/// a fixed per-kind layout at a single orientation, row-major, written
/// with the kind's tag.
pub open spec fn preview_of(k: ShapeType) -> Seq<u8> {
    match k {
        ShapeType::I => Seq::new(
            16,
            |p: int| if p == 12 || p == 13 || p == 14 || p == 15 { 1u8 } else { 0u8 },
        ),
        ShapeType::J => Seq::new(
            16,
            |p: int| if p == 0 || p == 4 || p == 5 || p == 6 { 2u8 } else { 0u8 },
        ),
        ShapeType::L => Seq::new(
            16,
            |p: int| if p == 4 || p == 5 || p == 6 || p == 8 { 3u8 } else { 0u8 },
        ),
        ShapeType::O => Seq::new(
            16,
            |p: int| if p == 1 || p == 2 || p == 5 || p == 6 { 4u8 } else { 0u8 },
        ),
        ShapeType::S => Seq::new(
            16,
            |p: int| if p == 1 || p == 5 || p == 6 || p == 10 { 5u8 } else { 0u8 },
        ),
        ShapeType::T => Seq::new(
            16,
            |p: int| if p == 1 || p == 5 || p == 6 || p == 9 { 6u8 } else { 0u8 },
        ),
        ShapeType::Z => Seq::new(
            16,
            |p: int| if p == 4 || p == 5 || p == 9 || p == 10 { 7u8 } else { 0u8 },
        ),
    }
}

/// The preview grid after one tick: recomputed only when the cached kind
/// no longer matches the queued one.
pub open spec fn preview_after(pk: Option<ShapeType>, nk: ShapeType, pv: Seq<u8>) -> Seq<u8> {
    if pk == Some(nk) {
        pv
    } else {
        preview_of(nk)
    }
}

/// The absolute cells the piece occupies at its own origin and facing.
pub open spec fn shape_footprint(s: Shape) -> Seq<(int, int)> {
    shape_cells(s.shape_type, s.dir, s.x as int, s.y as int)
}

/// True when the top visible row holds any occupied cell: the spawn
/// position is blocked and an attempted spawn ends the game.
pub open spec fn top_row_occupied(b: Seq<u8>) -> bool {
    exists|x: int| 0 <= x < WIDTH && b[x] != 0
}

/// The fall timer after `e` more milliseconds; it saturates just past the
/// threshold, where every larger value behaves the same.
pub open spec fn bump_timer(t: u64, e: u64) -> u64 {
    if t + e > FALL_RATE {
        (FALL_RATE + 1) as u64
    } else {
        (t + e) as u64
    }
}

/// The mathematical state of a [`Game`]: every contract of the engine is
/// stated over this view.
pub ghost struct GameView {
    /// Main board cells, row-major, `WIDTH * HEIGHT` entries.
    pub board: Seq<u8>,
    /// Preview grid cells, row-major, `PSIZE * PSIZE` entries.
    pub preview: Seq<u8>,
    /// The falling piece, if one exists.
    pub active: Option<Shape>,
    /// The kind the preview grid currently depicts, if any.
    pub preview_kind: Option<ShapeType>,
    /// One-way flag: once set, the engine mutates nothing further.
    pub game_over: bool,
    /// While set, ticks are frozen without resetting any state.
    pub paused: bool,
    /// Milliseconds accumulated since the last gravity step.
    pub fall_timer: u64,
    /// The kind that the next spawn will use.
    pub next_shape: ShapeType,
    /// The score; it never decreases.
    pub score: u64,
    /// The state of the kind-drawing generator.
    pub rng: u64,
}

/// The game engine: the board, the preview grid, the falling piece, the
/// queued next kind, the score and the game-over flag.
pub struct Game {
    board: Vec<u8>,
    preview_board: Vec<u8>,
    pub active_shape: Option<Shape>,
    preview_kind: Option<ShapeType>,
    pub game_over: bool,
    pub paused: bool,
    fall_timer: u64,
    next_shape: ShapeType,
    pub score: u64,
    rng: u64,
}

impl View for Game {
    type V = GameView;

    closed spec fn view(&self) -> GameView {
        GameView {
            board: self.board@,
            preview: self.preview_board@,
            active: self.active_shape,
            preview_kind: self.preview_kind,
            game_over: self.game_over,
            paused: self.paused,
            fall_timer: self.fall_timer,
            next_shape: self.next_shape,
            score: self.score,
            rng: self.rng,
        }
    }
}

impl Game {
    /// The two grids have their fixed sizes.
    pub open spec fn wf(self) -> bool {
        &&& self@.board.len() == WIDTH * HEIGHT
        &&& self@.preview.len() == PSIZE * PSIZE
    }

    /// The cell tag at column `x`, row `y` of the main board.
    pub open spec fn cell(self, x: int, y: int) -> u8 {
        self@.board[y * (WIDTH as int) + x]
    }

    /// A fresh game: empty board, empty preview, no active piece, score 0,
    /// not paused, not over, with the first queued kind already drawn.
    pub fn new() -> (g: Game)
        ensures
            g.wf(),
            g@ == (GameView {
                board: Seq::new((WIDTH * HEIGHT) as nat, |p: int| 0u8),
                preview: Seq::new((PSIZE * PSIZE) as nat, |p: int| 0u8),
                active: None,
                preview_kind: None,
                game_over: false,
                paused: false,
                fall_timer: 0,
                next_shape: kind_of_rand(RAND_SEED),
                score: 0,
                rng: RAND_SEED,
            }),
    {
        Game {
            board: zero_grid(WIDTH * HEIGHT),
            preview_board: zero_grid(PSIZE * PSIZE),
            active_shape: None,
            preview_kind: None,
            game_over: false,
            paused: false,
            fall_timer: 0,
            next_shape: rand_kind(RAND_SEED),
            score: 0,
            rng: RAND_SEED,
        }
    }

    /// Read-only view of the main board, row-major, `WIDTH` cells per row.
    pub fn board_ref(&self) -> (r: &Vec<u8>)
        ensures
            r@ == self@.board,
    {
        &self.board
    }

    /// Read-only view of the preview grid, row-major, `PSIZE` cells per row.
    pub fn preview_board_ref(&self) -> (r: &Vec<u8>)
        ensures
            r@ == self@.preview,
    {
        &self.preview_board
    }

    /// Writes one board cell; the test bench uses it to set up positions.
    pub fn set_cell(&mut self, x: usize, y: usize, tag: u8)
        requires
            old(self).wf(),
            x < WIDTH,
            y < HEIGHT,
        ensures
            final(self).wf(),
            final(self)@ == (GameView {
                board: old(self)@.board.update(y * (WIDTH as int) + x, tag),
                ..old(self)@
            }),
    {
        self.board.set(y * WIDTH + x, tag);
    }

    /// Makes a fresh piece of the given kind the active piece, facing
    /// Right, with its home cell at (`x`, `y`).
    pub fn spawn(&mut self, shape_type: ShapeType, x: i32, y: i32)
        ensures
            final(self)@ == (GameView {
                active: Some(Shape { dir: Dir::Right, shape_type, x, y }),
                ..old(self)@
            }),
    {
        let shape = Shape::new(x, y, shape_type);
        self.active_shape = Some(shape);
    }

    /// Writes `val` into every in-bounds cell of `coords`, skipping the
    /// out-of-bounds ones silently.
    fn write_cells(&mut self, coords: &Vec<(i64, i64)>, val: u8)
        requires
            old(self).wf(),
        ensures
            final(self).wf(),
            final(self)@ == (GameView {
                board: stamp_cells(old(self)@.board, coords_view(coords@), val),
                ..old(self)@
            }),
    {
        let ghost v0 = self@;
        let ghost cs = coords_view(coords@);
        let mut i: usize = 0;
        while i < coords.len()
            invariant
                self.wf(),
                i <= coords.len(),
                cs == coords_view(coords@),
                cs.len() == coords@.len(),
                v0.board.len() == WIDTH * HEIGHT,
                self@ == (GameView { board: self@.board, ..v0 }),
                self@.board.len() == v0.board.len(),
                forall|p: int|
                    0 <= p < v0.board.len() ==> #[trigger] self@.board[p] == (if covers_prefix(
                        cs,
                        i as int,
                        p,
                    ) {
                        val
                    } else {
                        v0.board[p]
                    }),
            decreases coords.len() - i,
        {
            let c: (i64, i64) = coords[i];
            proof {
                assert(cs[i as int] == (c.0 as int, c.1 as int));
            }
            if c.0 >= 0 && c.0 < WIDTH as i64 && c.1 >= 0 && c.1 < HEIGHT as i64 {
                let idx: usize = (c.1 as usize) * WIDTH + (c.0 as usize);
                self.board.set(idx, val);
                proof {
                    assert(in_bounds(cs[i as int]) && cell_index(cs[i as int]) == idx as int);
                    assert forall|p: int| 0 <= p < v0.board.len() implies #[trigger] self@.board[p]
                        == (if covers_prefix(cs, i + 1, p) {
                        val
                    } else {
                        v0.board[p]
                    }) by {
                        if p == idx as int {
                            assert(covers_prefix(cs, i + 1, p));
                        } else {
                            assert(covers_prefix(cs, i + 1, p) == covers_prefix(cs, i as int, p))
                                by {
                                if covers_prefix(cs, i + 1, p) {
                                    let j = choose|j: int|
                                        0 <= j < i + 1 && j < cs.len() && in_bounds(
                                            #[trigger] cs[j],
                                        ) && cell_index(cs[j]) == p;
                                    assert(j < i);
                                    assert(covers_prefix(cs, i as int, p));
                                }
                            }
                        }
                    }
                }
            } else {
                proof {
                    assert(!in_bounds(cs[i as int]));
                    assert forall|p: int| 0 <= p < v0.board.len() implies #[trigger] self@.board[p]
                        == (if covers_prefix(cs, i + 1, p) {
                        val
                    } else {
                        v0.board[p]
                    }) by {
                        assert(covers_prefix(cs, i + 1, p) == covers_prefix(cs, i as int, p)) by {
                            if covers_prefix(cs, i + 1, p) {
                                let j = choose|j: int|
                                    0 <= j < i + 1 && j < cs.len() && in_bounds(#[trigger] cs[j])
                                        && cell_index(cs[j]) == p;
                                assert(j < i);
                                assert(covers_prefix(cs, i as int, p));
                            }
                        }
                    }
                }
            }
            i = i + 1;
        }
        proof {
            assert forall|p: int| 0 <= p < v0.board.len() implies covers_prefix(
                cs,
                cs.len() as int,
                p,
            ) == covers(cs, p) by {}
            assert(self@.board =~= stamp_cells(v0.board, cs, val));
        }
    }

    /// Writes 0 into every in-bounds cell of the list; cells off the
    /// board (negative `y` included) are silently skipped.
    pub fn clear_coords(&mut self, coords: &Vec<(i64, i64)>)
        requires
            old(self).wf(),
        ensures
            final(self).wf(),
            final(self)@ == (GameView {
                board: stamp_cells(old(self)@.board, coords_view(coords@), 0),
                ..old(self)@
            }),
    {
        self.write_cells(coords, 0);
    }

    /// Merges the active piece into the board: its in-bounds cells take
    /// the piece's tag and the piece itself is gone.  Without an active
    /// piece this is a no-op.
    pub fn shape_to_board(&mut self)
        requires
            old(self).wf(),
        ensures
            final(self).wf(),
            old(self)@.active is None ==> final(self)@ == old(self)@,
            old(self)@.active matches Some(s) ==> final(self)@ == (GameView {
                active: None,
                board: stamp_cells(
                    old(self)@.board,
                    shape_cells(s.shape_type, s.dir, s.x as int, s.y as int),
                    tag_of(s.shape_type),
                ),
                ..old(self)@
            }),
    {
        if self.active_shape.is_none() {
            return;
        }
        let shape = self.active_shape.unwrap();
        self.active_shape = None;
        let coords = shape.to_coords(shape.dir);
        let t: u8 = shape.shape_type.tag();
        self.write_cells(&coords, t);
    }

    /// True when every cell of row `y` is occupied.
    fn row_full_exec(&self, y: usize) -> (r: bool)
        requires
            self.wf(),
            y < HEIGHT,
        ensures
            r == row_full(self@.board, y as int),
    {
        let mut x: usize = 0;
        let mut full: bool = true;
        while x < WIDTH
            invariant
                self.wf(),
                y < HEIGHT,
                x <= WIDTH,
                full == (forall|xx: int|
                    0 <= xx < x ==> #[trigger] self@.board[(y as int) * (WIDTH as int) + xx] != 0),
            decreases WIDTH - x,
        {
            if self.board[y * WIDTH + x] == 0 {
                full = false;
            }
            x = x + 1;
        }
        full
    }

    /// Writes 0 into every cell of row `ry`.
    fn zero_row(&mut self, ry: usize)
        requires
            old(self).wf(),
            ry < HEIGHT,
        ensures
            final(self).wf(),
            final(self)@ == (GameView { board: final(self)@.board, ..old(self)@ }),
            final(self)@.board.len() == old(self)@.board.len(),
            forall|p: int|
                0 <= p < old(self)@.board.len() ==> #[trigger] final(self)@.board[p] == (if (
                ry as int) * (WIDTH as int) <= p < ((ry as int) + 1) * (WIDTH as int) {
                    0
                } else {
                    old(self)@.board[p]
                }),
    {
        let ghost v0 = self@;
        let mut x: usize = 0;
        while x < WIDTH
            invariant
                self.wf(),
                ry < HEIGHT,
                x <= WIDTH,
                self@ == (GameView { board: self@.board, ..v0 }),
                self@.board.len() == v0.board.len(),
                forall|p: int|
                    0 <= p < v0.board.len() ==> #[trigger] self@.board[p] == (if (ry as int) * (
                    WIDTH as int) <= p < (ry as int) * (WIDTH as int) + x {
                        0
                    } else {
                        v0.board[p]
                    }),
            decreases WIDTH - x,
        {
            self.board.set(ry * WIDTH + x, 0);
            x = x + 1;
        }
    }

    /// Copies row `y2` into row `y2 + 1`; row `y2` itself is unchanged.
    fn copy_row_down(&mut self, y2: usize)
        requires
            old(self).wf(),
            y2 + 1 < HEIGHT,
        ensures
            final(self).wf(),
            final(self)@ == (GameView { board: final(self)@.board, ..old(self)@ }),
            final(self)@.board.len() == old(self)@.board.len(),
            forall|p: int|
                0 <= p < old(self)@.board.len() ==> #[trigger] final(self)@.board[p] == (if ((
                y2 as int) + 1) * (WIDTH as int) <= p < ((y2 as int) + 2) * (WIDTH as int) {
                    old(self)@.board[p - (WIDTH as int)]
                } else {
                    old(self)@.board[p]
                }),
    {
        let ghost v0 = self@;
        let mut x: usize = 0;
        while x < WIDTH
            invariant
                self.wf(),
                y2 + 1 < HEIGHT,
                x <= WIDTH,
                self@ == (GameView { board: self@.board, ..v0 }),
                self@.board.len() == v0.board.len(),
                forall|p: int|
                    0 <= p < v0.board.len() ==> #[trigger] self@.board[p] == (if ((y2 as int) + 1)
                        * (WIDTH as int) <= p < ((y2 as int) + 1) * (WIDTH as int) + x {
                        v0.board[p - (WIDTH as int)]
                    } else {
                        v0.board[p]
                    }),
            decreases WIDTH - x,
        {
            let v: u8 = self.board[y2 * WIDTH + x];
            proof {
                assert(self@.board[(y2 as int) * (WIDTH as int) + x as int] == v0.board[(
                y2 as int) * (WIDTH as int) + x as int]);
            }
            self.board.set((y2 + 1) * WIDTH + x, v);
            x = x + 1;
        }
    }

    /// The instant drop: repeats Down until the piece is blocked, then
    /// locks it immediately — it is merged into the board and completed
    /// rows are cleared and scored.  A no-op after game over or without
    /// an active piece.
    pub fn drop_shape(&mut self)
        requires
            old(self).wf(),
        ensures
            final(self).wf(),
            final(self)@.score >= old(self)@.score,
            old(self)@.game_over || old(self)@.active is None ==> final(self)@ == old(self)@,
            !old(self)@.game_over ==> (old(self)@.active matches Some(s) ==> {
                let be = stamp_cells(old(self)@.board, shape_footprint(s), 0);
                let yf = dropped_y(be, s.shape_type, s.dir, s.x as int, s.y as int);
                let b1 = stamp_cells(
                    be,
                    shape_cells(s.shape_type, s.dir, s.x as int, yf),
                    tag_of(s.shape_type),
                );
                final(self)@ == (GameView {
                    active: None,
                    board: after_clear(b1),
                    score: add_score(old(self)@.score, bonus_of(cleared_count(b1))),
                    ..old(self)@
                })
            }),
    {
        if self.game_over {
            return;
        }
        if self.active_shape.is_none() {
            return;
        }
        let shape0 = self.active_shape.unwrap();
        let ghost v0 = self@;
        let ghost kk = shape0.shape_type;
        let ghost dd = shape0.dir;
        let ghost sx = shape0.x as int;
        let ghost be = stamp_cells(v0.board, shape_footprint(shape0), 0);
        let ghost yf = dropped_y(be, kk, dd, sx, shape0.y as int);
        let mut stepped: bool = false;
        loop
            invariant_except_break
                self.wf(),
                !self@.game_over,
                self@.active is Some,
                (self@.active->0).shape_type == kk,
                (self@.active->0).dir == dd,
                (self@.active->0).x as int == sx,
                dropped_y(be, kk, dd, sx, (self@.active->0).y as int) == yf,
                !stepped ==> self@.active->0 == shape0 && self@ == v0,
                stepped ==> self@ == (GameView { active: self@.active, board: be, ..v0 }),
                forall|p: int|
                    0 <= p < be.len() && covers(
                        shape_cells(kk, dd, sx, (self@.active->0).y as int),
                        p,
                    ) ==> be[p] == 0,
                be == stamp_cells(v0.board, shape_footprint(shape0), 0),
                be.len() == WIDTH * HEIGHT,
                v0.board.len() == WIDTH * HEIGHT,
                !v0.game_over,
            ensures
                self.wf(),
                self@.active is Some,
                (self@.active->0).shape_type == kk,
                (self@.active->0).dir == dd,
                (self@.active->0).x as int == sx,
                (self@.active->0).y as int == yf,
                (self@ == v0 && shape_footprint(self@.active->0) == shape_footprint(shape0))
                    || self@ == (GameView { active: self@.active, board: be, ..v0 }),
            decreases drop_fuel((self@.active->0).y as int),
        {
            let cur = self.active_shape.unwrap();
            let old_y: i32 = cur.y;
            self.move_shape(Move::Down);
            proof {
                lemma_home_cell(cur.shape_type, cur.dir, cur.x as int, cur.y + 1);
            }
            let cur2 = self.active_shape.unwrap();
            if cur2.y == old_y {
                proof {
                    let oldc = shape_footprint(cur);
                    let newc = shape_cells(kk, dd, sx, cur.y + 1);
                    assert(newc == cand_cells(cur, Move::Down));
                    if placement_valid(if stepped { be } else { v0.board }, oldc, newc) {
                        assert(newc[0] == (sx, cur.y + 1));
                        assert(cur.y + 1 < HEIGHT);
                        assert(cur2.y == cur.y + 1);
                    }
                    assert(!placement_valid(if stepped { be } else { v0.board }, oldc, newc));
                    if !stepped {
                        lemma_valid_on_erased(v0.board, oldc, newc);
                        assert(stamp_cells(v0.board, oldc, 0) == be);
                    }
                    assert(!placement_valid(be, oldc, newc));
                    assert(dropped_y(be, kk, dd, sx, cur.y as int) == cur.y as int);
                }
                break;
            }
            proof {
                let oldc = shape_footprint(cur);
                let newc = shape_cells(kk, dd, sx, cur.y + 1);
                assert(newc == cand_cells(cur, Move::Down));
                let bcur = if stepped { be } else { v0.board };
                assert(placement_valid(bcur, oldc, newc)) by {
                    if !placement_valid(bcur, oldc, newc) {
                        assert(self@.active->0 == cur);
                    }
                }
                assert(newc[0] == (sx, cur.y + 1));
                assert(cur.y + 1 < HEIGHT);
                assert(self@.active->0 == moved_shape(cur, Move::Down));
                assert((self@.active->0).y as int == cur.y + 1);
                if !stepped {
                    lemma_valid_on_erased(v0.board, oldc, newc);
                }
                assert(placement_valid(be, oldc, newc));
                assert(dropped_y(be, kk, dd, sx, cur.y as int) == dropped_y(
                    be,
                    kk,
                    dd,
                    sx,
                    cur.y + 1,
                ));
                if stepped {
                    assert(stamp_cells(be, oldc, 0) =~= be);
                }
                assert(self@.board == be);
                assert forall|p: int|
                    0 <= p < be.len() && covers(newc, p) implies be[p] == 0 by {
                    let j = choose|j: int|
                        0 <= j < newc.len() && in_bounds(#[trigger] newc[j]) && cell_index(
                            newc[j],
                        ) == p;
                    let c = newc[j];
                    assert(cell_valid(be, oldc, c));
                    if oldc.contains(c) {
                        let m = choose|m: int| 0 <= m < oldc.len() && oldc[m] == c;
                        assert(covers(oldc, p));
                    }
                }
            }
            stepped = true;
        }
        proof {
            let curf = self@.active->0;
            let fpf = shape_footprint(curf);
            assert(fpf == shape_cells(kk, dd, sx, yf));
            if self@ == v0 {
                assert(stamp_cells(v0.board, fpf, tag_of(kk)) =~= stamp_cells(
                    be,
                    fpf,
                    tag_of(kk),
                ));
            }
        }
        self.shape_to_board();
        self.clear_completed();
    }

    /// Decides whether a piece whose footprint is `old_coords` may occupy
    /// `new_coords`: every candidate cell must be acceptable — inside the
    /// board horizontally and above its floor, and, unless above the
    /// visible top or part of the old footprint, empty on the board.  The
    /// game state is left untouched.
    pub fn valid_move(
        &mut self,
        old_coords: &Vec<(i64, i64)>,
        new_coords: &Vec<(i64, i64)>,
    ) -> (r: bool)
        requires
            old(self).wf(),
        ensures
            final(self)@ == old(self)@,
            r == placement_valid(
                old(self)@.board,
                coords_view(old_coords@),
                coords_view(new_coords@),
            ),
    {
        let ghost b = self@.board;
        let ghost olds = coords_view(old_coords@);
        let ghost news = coords_view(new_coords@);
        let mut i: usize = 0;
        while i < new_coords.len()
            invariant
                self.wf(),
                self@ == old(self)@,
                b == self@.board,
                olds == coords_view(old_coords@),
                news == coords_view(new_coords@),
                news.len() == new_coords@.len(),
                i <= new_coords.len(),
                forall|j: int| 0 <= j < i ==> cell_valid(b, olds, #[trigger] news[j]),
            decreases new_coords.len() - i,
        {
            let c: (i64, i64) = new_coords[i];
            proof {
                assert(news[i as int] == (c.0 as int, c.1 as int));
            }
            if c.0 < 0 || c.0 >= WIDTH as i64 || c.1 >= HEIGHT as i64 {
                proof {
                    assert(!cell_valid(b, olds, news[i as int]));
                }
                return false;
            }
            if contains_coord(old_coords, c.0, c.1) || c.1 < 0 {
                proof {
                    assert(cell_valid(b, olds, news[i as int]));
                }
            } else {
                let idx: usize = (c.1 as usize) * WIDTH + (c.0 as usize);
                if self.board[idx] != 0 {
                    proof {
                        assert(!cell_valid(b, olds, news[i as int]));
                    }
                    return false;
                }
                proof {
                    assert(cell_valid(b, olds, news[i as int]));
                }
            }
            i = i + 1;
        }
        true
    }

    /// Detects all completed rows in one pass, adds the score bonus for
    /// their count, zeroes them, and then shifts the cells above each
    /// completed row down by one row, topmost completed row first.
    pub fn clear_completed(&mut self) -> (count: usize)
        requires
            old(self).wf(),
        ensures
            final(self).wf(),
            count == cleared_count(old(self)@.board),
            final(self)@ == (GameView {
                board: after_clear(old(self)@.board),
                score: add_score(old(self)@.score, bonus_of(cleared_count(old(self)@.board))),
                ..old(self)@
            }),
            final(self)@.score >= old(self)@.score,
    {
        let ghost v0 = self@;
        let ghost b0 = self@.board;
        let mut completed: Vec<usize> = Vec::new();
        let mut y: usize = 0;
        while y < HEIGHT
            invariant
                self.wf(),
                self@ == v0,
                b0 == v0.board,
                y <= HEIGHT,
                rows_view(completed@) == full_rows_below(b0, y as int),
                forall|j: int| 0 <= j < completed@.len() ==> #[trigger] completed@[j] < HEIGHT,
            decreases HEIGHT - y,
        {
            if self.row_full_exec(y) {
                completed.push(y);
            }
            proof {
                assert(rows_view(completed@) =~= full_rows_below(b0, y as int + 1));
            }
            y = y + 1;
        }
        let ghost rows = full_rows_below(b0, HEIGHT as int);
        proof {
            lemma_full_rows_below_props(b0, HEIGHT as int);
            assert(completed@.len() == rows.len());
        }
        let n: usize = completed.len();
        let bns: u64 = if n == 0 {
            0
        } else if n == 1 {
            800
        } else if n == 2 {
            1200
        } else if n == 3 {
            1800
        } else if n == 4 {
            2000
        } else {
            3200
        };
        proof {
            assert(bns == bonus_of(cleared_count(b0)));
        }
        if self.score <= u64::MAX - bns {
            self.score = self.score + bns;
        } else {
            self.score = u64::MAX;
        }
        let ghost sc1 = add_score(v0.score, bonus_of(cleared_count(v0.board)));
        proof {
            assert(self@.score == sc1);
        }
        let mut i: usize = 0;
        while i < completed.len()
            invariant
                self.wf(),
                self@ == (GameView { board: self@.board, score: sc1, ..v0 }),
                self@.board.len() == b0.len(),
                b0 == v0.board,
                b0.len() == WIDTH * HEIGHT,
                i <= completed.len(),
                rows_view(completed@) == rows,
                forall|j: int| 0 <= j < completed@.len() ==> #[trigger] completed@[j] < HEIGHT,
                forall|p: int|
                    0 <= p < b0.len() ==> #[trigger] self@.board[p] == (if row_in_prefix(
                        rows,
                        i as int,
                        p / (WIDTH as int),
                    ) {
                        0
                    } else {
                        b0[p]
                    }),
            decreases completed.len() - i,
        {
            let ry: usize = completed[i];
            self.zero_row(ry);
            proof {
                assert(rows[i as int] == ry as int);
                assert forall|p: int| 0 <= p < b0.len() implies #[trigger] self@.board[p] == (
                if row_in_prefix(rows, i + 1, p / (WIDTH as int)) {
                    0
                } else {
                    b0[p]
                }) by {
                    let r = p / (WIDTH as int);
                    assert((ry as int) * (WIDTH as int) <= p < ((ry as int) + 1) * (WIDTH as int)
                        <==> r == ry as int);
                    if row_in_prefix(rows, i + 1, r) && !row_in_prefix(rows, i as int, r) {
                        assert(rows[i as int] == r);
                    }
                }
            }
            i = i + 1;
        }
        proof {
            assert(self@.board =~= zero_full_rows(b0)) by {
                assert forall|p: int| 0 <= p < b0.len() implies self@.board[p] == zero_full_rows(
                    b0,
                )[p] by {
                    let r = p / (WIDTH as int);
                    assert(0 <= r < HEIGHT);
                    if row_full(b0, r) {
                        assert(rows.contains(r));
                        let k = choose|k: int| 0 <= k < rows.len() && rows[k] == r;
                        assert(row_in_prefix(rows, rows.len() as int, r));
                    } else {
                        if row_in_prefix(rows, rows.len() as int, r) {
                            let j = choose|j: int|
                                0 <= j < rows.len() && #[trigger] rows[j] == r;
                            assert(row_full(b0, rows[j]));
                        }
                    }
                }
            }
        }
        let ghost b1 = zero_full_rows(b0);
        proof {
            assert(rows.subrange(0, rows.len() as int) =~= rows);
        }
        let mut k: usize = 0;
        while k < completed.len()
            invariant
                self.wf(),
                self@ == (GameView { board: self@.board, score: sc1, ..v0 }),
                self@.board.len() == b1.len(),
                b1.len() == WIDTH * HEIGHT,
                k <= completed.len(),
                rows_view(completed@) == rows,
                forall|j: int| 0 <= j < completed@.len() ==> #[trigger] completed@[j] < HEIGHT,
                cascade(b1, rows) == cascade(
                    self@.board,
                    rows.subrange(k as int, rows.len() as int),
                ),
            decreases completed.len() - k,
        {
            let ry: usize = completed[k];
            let ghost bin = self@.board;
            let mut y2: usize = ry;
            while y2 > 0
                invariant
                    self.wf(),
                    self@ == (GameView { board: self@.board, score: sc1, ..v0 }),
                    self@.board.len() == bin.len(),
                    bin.len() == WIDTH * HEIGHT,
                    ry < HEIGHT,
                    y2 <= ry,
                    forall|p: int|
                        0 <= p < bin.len() ==> #[trigger] self@.board[p] == (if (y2 as int) + 1
                            <= p / (WIDTH as int) <= ry as int {
                            bin[p - (WIDTH as int)]
                        } else {
                            bin[p]
                        }),
                decreases y2,
            {
                y2 = y2 - 1;
                let ghost bprev = self@.board;
                self.copy_row_down(y2);
                proof {
                    assert forall|p: int| 0 <= p < bin.len() implies #[trigger] self@.board[p] == (
                    if (y2 as int) + 1 <= p / (WIDTH as int) <= ry as int {
                        bin[p - (WIDTH as int)]
                    } else {
                        bin[p]
                    }) by {
                        let r = p / (WIDTH as int);
                        assert(((y2 as int) + 1) * (WIDTH as int) <= p < ((y2 as int) + 2) * (
                        WIDTH as int) <==> r == (y2 as int) + 1);
                        if r == (y2 as int) + 1 {
                            assert(self@.board[p] == bprev[p - (WIDTH as int)]);
                            assert((p - (WIDTH as int)) / (WIDTH as int) == r - 1);
                        }
                    }
                }
            }
            proof {
                assert(self@.board =~= shift_rows_above(bin, ry as int));
                assert(rows[k as int] == ry as int);
                let tail = rows.subrange(k as int, rows.len() as int);
                assert(tail.len() > 0);
                assert(tail[0] == ry as int);
                assert(cascade(bin, tail) == cascade(
                    shift_rows_above(bin, ry as int),
                    tail.subrange(1, tail.len() as int),
                ));
                assert(tail.subrange(1, tail.len() as int) =~= rows.subrange(
                    k as int + 1,
                    rows.len() as int,
                ));
            }
            k = k + 1;
        }
        proof {
            assert(rows.subrange(rows.len() as int, rows.len() as int).len() == 0);
            assert(cascade(b1, rows) == self@.board);
            assert(final(self)@.board == after_clear(v0.board));
        }
        n
    }

    /// Redraws the preview grid with the silhouette of the queued next
    /// kind.  The work is skipped when the cached kind still matches the
    /// queued one, so nothing changes in that case.
    pub fn update_preview_board(&mut self)
        requires
            old(self).wf(),
        ensures
            final(self).wf(),
            old(self)@.preview_kind == Some(old(self)@.next_shape) ==> final(self)@ == old(self)@,
            old(self)@.preview_kind != Some(old(self)@.next_shape) ==> final(self)@ == (GameView {
                preview: preview_of(old(self)@.next_shape),
                preview_kind: Some(old(self)@.next_shape),
                ..old(self)@
            }),
    {
        let skip: bool = match self.preview_kind {
            Some(k) => k == self.next_shape,
            None => false,
        };
        if skip {
            return;
        }
        let ghost v0 = self@;
        let mut p: usize = 0;
        while p < PSIZE * PSIZE
            invariant
                self.wf(),
                p <= PSIZE * PSIZE,
                self@ == (GameView { preview: self@.preview, ..v0 }),
                self@.preview.len() == PSIZE * PSIZE,
                forall|q: int|
                    0 <= q < PSIZE * PSIZE ==> #[trigger] self@.preview[q] == (if q < p {
                        0u8
                    } else {
                        v0.preview[q]
                    }),
            decreases PSIZE * PSIZE - p,
        {
            self.preview_board.set(p, 0);
            p = p + 1;
        }
        let t: u8 = self.next_shape.tag();
        match self.next_shape {
            ShapeType::I => {
                self.preview_board.set(12, t);
                self.preview_board.set(13, t);
                self.preview_board.set(14, t);
                self.preview_board.set(15, t);
            },
            ShapeType::J => {
                self.preview_board.set(0, t);
                self.preview_board.set(4, t);
                self.preview_board.set(5, t);
                self.preview_board.set(6, t);
            },
            ShapeType::L => {
                self.preview_board.set(4, t);
                self.preview_board.set(5, t);
                self.preview_board.set(6, t);
                self.preview_board.set(8, t);
            },
            ShapeType::O => {
                self.preview_board.set(1, t);
                self.preview_board.set(2, t);
                self.preview_board.set(5, t);
                self.preview_board.set(6, t);
            },
            ShapeType::S => {
                self.preview_board.set(1, t);
                self.preview_board.set(5, t);
                self.preview_board.set(6, t);
                self.preview_board.set(10, t);
            },
            ShapeType::T => {
                self.preview_board.set(1, t);
                self.preview_board.set(5, t);
                self.preview_board.set(6, t);
                self.preview_board.set(9, t);
            },
            ShapeType::Z => {
                self.preview_board.set(4, t);
                self.preview_board.set(5, t);
                self.preview_board.set(9, t);
                self.preview_board.set(10, t);
            },
        }
        self.preview_kind = Some(self.next_shape);
        proof {
            assert(self@.preview =~= preview_of(v0.next_shape));
        }
    }

    /// True when the top visible row holds any occupied cell.
    fn top_row_occupied_exec(&self) -> (r: bool)
        requires
            self.wf(),
        ensures
            r == top_row_occupied(self@.board),
    {
        let mut x: usize = 0;
        while x < WIDTH
            invariant
                self.wf(),
                x <= WIDTH,
                forall|j: int| 0 <= j < x ==> #[trigger] self@.board[j] == 0,
            decreases WIDTH - x,
        {
            if self.board[x] != 0 {
                return true;
            }
            x = x + 1;
        }
        false
    }

    /// One tick of the engine, after `elapsed_ms` more milliseconds.
    ///
    /// After game over, or while paused, nothing happens.  With no active
    /// piece, a spawn attempt either ends the game (top visible row
    /// occupied) or spawns the queued kind at the horizontal centre one
    /// row above the visible top and draws a new queued kind.  With an
    /// active piece, once the accumulated time passes `FALL_RATE` the
    /// piece takes a Down step; if it is blocked instead, it is merged
    /// into the board and completed rows are cleared and scored.  Finally
    /// the active piece's footprint is painted onto the board and the
    /// preview grid is brought up to date.
    pub fn update(&mut self, elapsed_ms: u64)
        requires
            old(self).wf(),
        ensures
            final(self).wf(),
            final(self)@.score >= old(self)@.score,
            old(self)@.game_over ==> final(self)@.game_over,
            old(self)@.game_over ==> final(self)@ == old(self)@,
            !old(self)@.game_over && old(self)@.paused ==> final(self)@ == old(self)@,
            !old(self)@.game_over && !old(self)@.paused && old(self)@.active is None
                && top_row_occupied(old(self)@.board) ==> final(self)@ == (GameView {
                game_over: true,
                fall_timer: bump_timer(old(self)@.fall_timer, elapsed_ms),
                ..old(self)@
            }),
            !old(self)@.game_over && !old(self)@.paused && old(self)@.active is None
                && !top_row_occupied(old(self)@.board) ==> final(self)@ == (GameView {
                active: Some(
                    Shape {
                        dir: Dir::Right,
                        shape_type: old(self)@.next_shape,
                        x: (WIDTH / 2) as i32,
                        y: -1i32,
                    },
                ),
                next_shape: kind_of_rand(next_rand(old(self)@.rng)),
                rng: next_rand(old(self)@.rng),
                board: stamp_cells(
                    old(self)@.board,
                    shape_cells(
                        old(self)@.next_shape,
                        Dir::Right,
                        (WIDTH / 2) as int,
                        -1,
                    ),
                    tag_of(old(self)@.next_shape),
                ),
                preview: preview_after(
                    old(self)@.preview_kind,
                    kind_of_rand(next_rand(old(self)@.rng)),
                    old(self)@.preview,
                ),
                preview_kind: Some(kind_of_rand(next_rand(old(self)@.rng))),
                fall_timer: bump_timer(old(self)@.fall_timer, elapsed_ms),
                ..old(self)@
            }),
            !old(self)@.game_over && !old(self)@.paused ==> (old(self)@.active matches Some(s)
                ==> {
                let fired = old(self)@.fall_timer + elapsed_ms > FALL_RATE;
                let oldc = shape_footprint(s);
                if !fired {
                    final(self)@ == (GameView {
                        fall_timer: bump_timer(old(self)@.fall_timer, elapsed_ms),
                        board: stamp_cells(old(self)@.board, oldc, tag_of(s.shape_type)),
                        preview: preview_after(
                            old(self)@.preview_kind,
                            old(self)@.next_shape,
                            old(self)@.preview,
                        ),
                        preview_kind: Some(old(self)@.next_shape),
                        ..old(self)@
                    })
                } else if placement_valid(old(self)@.board, oldc, cand_cells(s, Move::Down)) {
                    final(self)@ == (GameView {
                        active: Some(moved_shape(s, Move::Down)),
                        fall_timer: 0,
                        board: stamp_cells(
                            stamp_cells(old(self)@.board, oldc, 0),
                            shape_footprint(moved_shape(s, Move::Down)),
                            tag_of(s.shape_type),
                        ),
                        preview: preview_after(
                            old(self)@.preview_kind,
                            old(self)@.next_shape,
                            old(self)@.preview,
                        ),
                        preview_kind: Some(old(self)@.next_shape),
                        ..old(self)@
                    })
                } else {
                    final(self)@ == (GameView {
                        active: None,
                        fall_timer: 0,
                        board: after_clear(
                            stamp_cells(old(self)@.board, oldc, tag_of(s.shape_type)),
                        ),
                        score: add_score(
                            old(self)@.score,
                            bonus_of(
                                cleared_count(
                                    stamp_cells(old(self)@.board, oldc, tag_of(s.shape_type)),
                                ),
                            ),
                        ),
                        preview: preview_after(
                            old(self)@.preview_kind,
                            old(self)@.next_shape,
                            old(self)@.preview,
                        ),
                        preview_kind: Some(old(self)@.next_shape),
                        ..old(self)@
                    })
                }
            }),
    {
        if self.game_over {
            return;
        }
        if self.paused {
            return;
        }
        let alive: bool = self.advance(elapsed_ms);
        if !alive {
            return;
        }
        if self.active_shape.is_some() {
            let shape = self.active_shape.unwrap();
            let coords = shape.to_coords(shape.dir);
            let t: u8 = shape.shape_type.tag();
            self.write_cells(&coords, t);
        }
        self.update_preview_board();
    }

    /// The gravity-and-spawn half of one tick: bumps the fall timer, and
    /// either attempts the spawn (which may end the game) or, once the
    /// timer passes the threshold, takes the Down step or locks and
    /// clears.  Painting the footprint and refreshing the preview are
    /// left to the caller.
    fn advance(&mut self, elapsed_ms: u64) -> (alive: bool)
        requires
            old(self).wf(),
            !old(self)@.game_over,
            !old(self)@.paused,
        ensures
            final(self).wf(),
            alive == !final(self)@.game_over,
            old(self)@.active is None && top_row_occupied(old(self)@.board) ==> final(self)@ == (
            GameView {
                game_over: true,
                fall_timer: bump_timer(old(self)@.fall_timer, elapsed_ms),
                ..old(self)@
            }),
            old(self)@.active is None && !top_row_occupied(old(self)@.board) ==> final(self)@
                == (GameView {
                active: Some(
                    Shape {
                        dir: Dir::Right,
                        shape_type: old(self)@.next_shape,
                        x: (WIDTH / 2) as i32,
                        y: -1i32,
                    },
                ),
                next_shape: kind_of_rand(next_rand(old(self)@.rng)),
                rng: next_rand(old(self)@.rng),
                fall_timer: bump_timer(old(self)@.fall_timer, elapsed_ms),
                ..old(self)@
            }),
            old(self)@.active matches Some(s) ==> {
                let fired = old(self)@.fall_timer + elapsed_ms > FALL_RATE;
                let oldc = shape_footprint(s);
                if !fired {
                    final(self)@ == (GameView {
                        fall_timer: bump_timer(old(self)@.fall_timer, elapsed_ms),
                        ..old(self)@
                    })
                } else if placement_valid(old(self)@.board, oldc, cand_cells(s, Move::Down)) {
                    final(self)@ == (GameView {
                        active: Some(moved_shape(s, Move::Down)),
                        fall_timer: 0,
                        board: stamp_cells(old(self)@.board, oldc, 0),
                        ..old(self)@
                    })
                } else {
                    final(self)@ == (GameView {
                        active: None,
                        fall_timer: 0,
                        board: after_clear(
                            stamp_cells(old(self)@.board, oldc, tag_of(s.shape_type)),
                        ),
                        score: add_score(
                            old(self)@.score,
                            bonus_of(
                                cleared_count(
                                    stamp_cells(old(self)@.board, oldc, tag_of(s.shape_type)),
                                ),
                            ),
                        ),
                        ..old(self)@
                    })
                }
            },
    {
        let fired: bool = elapsed_ms > FALL_RATE || self.fall_timer > FALL_RATE - elapsed_ms;
        if fired {
            self.fall_timer = FALL_RATE + 1;
        } else {
            self.fall_timer = self.fall_timer + elapsed_ms;
        }
        if self.active_shape.is_some() {
            if fired {
                self.fall_timer = 0;
                self.lock_or_fall();
            }
            true
        } else {
            self.spawn_step()
        }
    }

    /// The gravity step proper: the active piece takes a Down move; if
    /// that is blocked, the piece is merged into the board and completed
    /// rows are cleared and scored.
    fn lock_or_fall(&mut self)
        requires
            old(self).wf(),
            !old(self)@.game_over,
            old(self)@.active is Some,
        ensures
            final(self).wf(),
            old(self)@.active matches Some(s) ==> {
                let oldc = shape_footprint(s);
                if placement_valid(old(self)@.board, oldc, cand_cells(s, Move::Down)) {
                    final(self)@ == (GameView {
                        active: Some(moved_shape(s, Move::Down)),
                        board: stamp_cells(old(self)@.board, oldc, 0),
                        ..old(self)@
                    })
                } else {
                    final(self)@ == (GameView {
                        active: None,
                        board: after_clear(
                            stamp_cells(old(self)@.board, oldc, tag_of(s.shape_type)),
                        ),
                        score: add_score(
                            old(self)@.score,
                            bonus_of(
                                cleared_count(
                                    stamp_cells(old(self)@.board, oldc, tag_of(s.shape_type)),
                                ),
                            ),
                        ),
                        ..old(self)@
                    })
                }
            },
    {
        let shape = self.active_shape.unwrap();
        let old_coords = shape.to_coords(shape.dir);
        let old_y: i32 = shape.y;
        self.move_shape(Move::Down);
        proof {
            let oldc = shape_footprint(shape);
            let newc = cand_cells(shape, Move::Down);
            lemma_home_cell(shape.shape_type, shape.dir, shape.x as int, shape.y + 1);
            if placement_valid(old(self)@.board, oldc, newc) {
                assert(newc[0] == (shape.x as int, shape.y + 1));
                assert(cell_valid(old(self)@.board, oldc, newc[0]));
                assert(shape.y + 1 < HEIGHT);
                assert(moved_shape(shape, Move::Down).y == shape.y + 1);
                assert(self@.active == Some(moved_shape(shape, Move::Down)));
            } else {
                assert(self@ == old(self)@);
            }
        }
        let still: bool = match self.active_shape {
            Some(s2) => s2.y == old_y,
            None => true,
        };
        if still {
            self.shape_to_board();
            self.clear_completed();
        } else {
            proof {
                let oldc = shape_footprint(shape);
                assert(stamp_cells(stamp_cells(old(self)@.board, oldc, 0), oldc, 0)
                    =~= stamp_cells(old(self)@.board, oldc, 0));
            }
            self.clear_coords(&old_coords);
        }
    }

    /// The spawn half of a tick: with the top visible row occupied the
    /// game ends and nothing spawns; otherwise the queued kind spawns at
    /// the horizontal centre one row above the visible top, and a new
    /// queued kind is drawn.
    fn spawn_step(&mut self) -> (alive: bool)
        requires
            old(self).wf(),
            !old(self)@.game_over,
            old(self)@.active is None,
        ensures
            final(self).wf(),
            alive == !final(self)@.game_over,
            top_row_occupied(old(self)@.board) ==> final(self)@ == (GameView {
                game_over: true,
                ..old(self)@
            }),
            !top_row_occupied(old(self)@.board) ==> final(self)@ == (GameView {
                active: Some(
                    Shape {
                        dir: Dir::Right,
                        shape_type: old(self)@.next_shape,
                        x: (WIDTH / 2) as i32,
                        y: -1i32,
                    },
                ),
                next_shape: kind_of_rand(next_rand(old(self)@.rng)),
                rng: next_rand(old(self)@.rng),
                ..old(self)@
            }),
    {
        if self.top_row_occupied_exec() {
            self.game_over = true;
            return false;
        }
        let r2: u64 = next_rand_exec(self.rng);
        let nk: ShapeType = self.next_shape;
        self.spawn(nk, (WIDTH / 2) as i32, -1);
        self.next_shape = rand_kind(r2);
        self.rng = r2;
        true
    }

    /// Applies one command to the falling piece.  The move is committed —
    /// and the piece's old footprint cleared from the board — only when
    /// the candidate footprint is valid; otherwise the whole state is
    /// left exactly as it was.  A rejected move is not an error.  With no
    /// active piece, or after game over, this is a no-op.
    pub fn move_shape(&mut self, dir: Move)
        requires
            old(self).wf(),
        ensures
            final(self).wf(),
            old(self)@.game_over || old(self)@.active is None ==> final(self)@ == old(self)@,
            !old(self)@.game_over ==> (old(self)@.active matches Some(s) ==> {
                let oldc = shape_cells(s.shape_type, s.dir, s.x as int, s.y as int);
                if placement_valid(old(self)@.board, oldc, cand_cells(s, dir)) {
                    final(self)@ == (GameView {
                        active: Some(moved_shape(s, dir)),
                        board: stamp_cells(old(self)@.board, oldc, 0),
                        ..old(self)@
                    })
                } else {
                    final(self)@ == old(self)@
                }
            }),
    {
        if self.game_over {
            return;
        }
        if self.active_shape.is_none() {
            return;
        }
        let shape = self.active_shape.unwrap();
        let old_coords = shape.to_coords(shape.dir);
        let (nx, ny, nd): (i64, i64, Dir) = match dir {
            Move::Left => (shape.x as i64 - 1, shape.y as i64, shape.dir),
            Move::Right => (shape.x as i64 + 1, shape.y as i64, shape.dir),
            Move::Down => (shape.x as i64, shape.y as i64 + 1, shape.dir),
            Move::Rotate => (shape.x as i64, shape.y as i64, shape.next_dir(shape.dir)),
        };
        let new_coords = coords_at(shape.shape_type, nd, nx, ny);
        proof {
            assert(coords_view(new_coords@) == cand_cells(shape, dir));
        }
        if self.valid_move(&old_coords, &new_coords) {
            match dir {
                Move::Rotate => {
                    self.active_shape = Some(Shape { dir: nd, ..shape });
                },
                _ => {
                    let c0: (i64, i64) = new_coords[0];
                    proof {
                        assert(cand_cells(shape, dir)[0] == (nx as int, ny as int));
                        assert(c0 == (nx, ny));
                    }
                    self.active_shape = Some(Shape { x: c0.0 as i32, y: c0.1 as i32, ..shape });
                },
            }
            proof {
                assert(self@.active == Some(moved_shape(shape, dir)));
            }
            self.clear_coords(&old_coords);
        }
    }
}

/// A piece may always keep its own footprint: `valid_move` from a cell
/// list to itself holds whenever every cell lies inside the board
/// horizontally and above its floor — whatever the board holds.
pub proof fn lemma_valid_self(b: Seq<u8>, cs: Seq<(int, int)>)
    requires
        forall|i: int| 0 <= i < cs.len() ==> 0 <= (#[trigger] cs[i]).0 < WIDTH && cs[i].1 < HEIGHT,
    ensures
        placement_valid(b, cs, cs),
{
    assert forall|i: int| 0 <= i < cs.len() implies cell_valid(b, cs, #[trigger] cs[i]) by {
        assert(cs.contains(cs[i]));
    }
}

/// Four accepted Rotate commands return the piece to exactly its
/// original state — origin, kind and facing — and hence to its original
/// footprint.
pub proof fn lemma_four_rotations_restore(s: Shape)
    ensures
        moved_shape(
            moved_shape(moved_shape(moved_shape(s, Move::Rotate), Move::Rotate), Move::Rotate),
            Move::Rotate,
        ) == s,
{
}

/// Erasing the old footprint from the board changes no move verdict that
/// uses that same footprint as its `old` set.
proof fn lemma_valid_on_erased(b: Seq<u8>, olds: Seq<(int, int)>, news: Seq<(int, int)>)
    requires
        b.len() == WIDTH * HEIGHT,
    ensures
        placement_valid(b, olds, news) == placement_valid(stamp_cells(b, olds, 0), olds, news),
{
    let be = stamp_cells(b, olds, 0);
    assert forall|i: int| 0 <= i < news.len() implies cell_valid(b, olds, #[trigger] news[i])
        == cell_valid(be, olds, news[i]) by {
        let c = news[i];
        if 0 <= c.0 < WIDTH && 0 <= c.1 < HEIGHT && !olds.contains(c) {
            let p = cell_index(c);
            assert(0 <= p < b.len());
            if covers(olds, p) {
                let j = choose|j: int|
                    0 <= j < olds.len() && in_bounds(#[trigger] olds[j]) && cell_index(olds[j])
                        == p;
                assert(olds[j] == c);
                assert(olds.contains(c));
            }
            assert(be[p] == b[p]);
        }
    }
}

/// True when the list holds the cell (`x`, `y`).
fn contains_coord(v: &Vec<(i64, i64)>, x: i64, y: i64) -> (r: bool)
    ensures
        r == coords_view(v@).contains((x as int, y as int)),
{
    let mut i: usize = 0;
    while i < v.len()
        invariant
            i <= v.len(),
            forall|j: int| 0 <= j < i ==> #[trigger] coords_view(v@)[j] != (x as int, y as int),
        decreases v.len() - i,
    {
        let c: (i64, i64) = v[i];
        if c.0 == x && c.1 == y {
            proof {
                assert(coords_view(v@)[i as int] == (x as int, y as int));
            }
            return true;
        }
        proof {
            assert(coords_view(v@)[i as int] == (c.0 as int, c.1 as int));
        }
        i = i + 1;
    }
    proof {
        assert(!coords_view(v@).contains((x as int, y as int)));
    }
    false
}

/// A grid of `n` empty cells.
fn zero_grid(n: usize) -> (v: Vec<u8>)
    ensures
        v@ == Seq::new(n as nat, |p: int| 0u8),
{
    let mut v: Vec<u8> = Vec::new();
    let mut i: usize = 0;
    while i < n
        invariant
            i <= n,
            v@ =~= Seq::new(i as nat, |p: int| 0u8),
        decreases n - i,
    {
        v.push(0);
        i = i + 1;
    }
    proof {
        assert(v@ =~= Seq::new(n as nat, |p: int| 0u8));
    }
    v
}

/// One step of the kind-drawing generator.
fn next_rand_exec(r: u64) -> (r2: u64)
    ensures
        r2 == next_rand(r),
{
    r.wrapping_mul(RAND_MUL).wrapping_add(RAND_INC)
}

/// The kind drawn from one generator value.
fn rand_kind(r: u64) -> (k: ShapeType)
    ensures
        k == kind_of_rand(r),
{
    let i: u64 = (r / 0x1_0000) % 7;
    if i == 0 {
        ShapeType::I
    } else if i == 1 {
        ShapeType::J
    } else if i == 2 {
        ShapeType::L
    } else if i == 3 {
        ShapeType::O
    } else if i == 4 {
        ShapeType::S
    } else if i == 5 {
        ShapeType::T
    } else {
        ShapeType::Z
    }
}

} // verus!
