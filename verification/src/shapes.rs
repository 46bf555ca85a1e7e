//! Piece geometry: the seven piece kinds, the four facings, and the rule
//! turning an origin cell, a kind and a facing into four absolute board cells.

use vstd::prelude::*;

verus! {

/// One of the four rotational states of a piece.  Rotation cycles
/// Right -> Down -> Left -> Up -> Right.
#[derive(Debug, PartialEq, Eq, Structural, Copy, Clone)]
pub enum Dir {
    Right,
    Down,
    Left,
    Up,
}

/// The seven piece kinds.
#[derive(Debug, PartialEq, Eq, Structural, Copy, Clone)]
pub enum ShapeType {
    I,
    J,
    L,
    O,
    S,
    T,
    Z,
}

/// The active piece: an origin cell (`x`, `y` — `y` may be negative above
/// the visible top during spawn), a kind, and a facing.
#[derive(Debug, PartialEq, Eq, Structural, Copy, Clone)]
pub struct Shape {
    pub dir: Dir,
    pub shape_type: ShapeType,
    pub x: i32,
    pub y: i32,
}

/// The non-zero cell tag of a piece kind; the renderer reads it as a
/// colour index, and 0 always means an empty cell.
pub open spec fn tag_of(kind: ShapeType) -> u8 {
    match kind {
        ShapeType::I => 1,
        ShapeType::J => 2,
        ShapeType::L => 3,
        ShapeType::O => 4,
        ShapeType::S => 5,
        ShapeType::T => 6,
        ShapeType::Z => 7,
    }
}

/// The facing one rotation step ahead: a fixed 4-cycle, independent of the
/// piece kind.
pub open spec fn next_dir_of(dir: Dir) -> Dir {
    match dir {
        Dir::Right => Dir::Down,
        Dir::Down => Dir::Left,
        Dir::Left => Dir::Up,
        Dir::Up => Dir::Right,
    }
}

/// The four absolute cells a piece of the given kind occupies at origin
/// (`x`, `y`) under the given facing.  The first cell is always the home
/// cell (`x`, `y`); the rest follow left to right, top to bottom.
pub open spec fn shape_cells(kind: ShapeType, dir: Dir, x: int, y: int) -> Seq<(int, int)> {
    match kind {
        ShapeType::I => match dir {
            Dir::Right | Dir::Left => seq![(x, y), (x - 1, y), (x + 1, y), (x + 2, y)],
            Dir::Down | Dir::Up => seq![(x, y), (x, y - 3), (x, y - 2), (x, y - 1)],
        },
        ShapeType::J => match dir {
            Dir::Right => seq![(x, y), (x - 1, y - 1), (x - 1, y), (x + 1, y)],
            Dir::Down => seq![(x, y), (x, y - 1), (x + 1, y - 1), (x, y + 1)],
            Dir::Left => seq![(x, y), (x - 1, y), (x + 1, y), (x + 1, y + 1)],
            Dir::Up => seq![(x, y), (x, y - 1), (x - 1, y + 1), (x, y + 1)],
        },
        ShapeType::L => match dir {
            Dir::Right => seq![(x, y), (x - 1, y), (x + 1, y), (x - 1, y + 1)],
            Dir::Down => seq![(x, y), (x - 1, y - 1), (x, y - 1), (x, y + 1)],
            Dir::Left => seq![(x, y), (x + 1, y - 1), (x - 1, y), (x + 1, y)],
            Dir::Up => seq![(x, y), (x, y - 1), (x, y + 1), (x + 1, y + 1)],
        },
        ShapeType::O => seq![(x, y), (x + 1, y), (x, y + 1), (x + 1, y + 1)],
        ShapeType::S => match dir {
            Dir::Right | Dir::Left => seq![(x, y), (x + 1, y), (x - 1, y + 1), (x, y + 1)],
            Dir::Down | Dir::Up => seq![(x, y), (x, y - 1), (x + 1, y), (x + 1, y + 1)],
        },
        ShapeType::T => match dir {
            Dir::Right => seq![(x, y), (x, y - 1), (x - 1, y), (x + 1, y)],
            Dir::Down => seq![(x, y), (x, y - 1), (x + 1, y), (x, y + 1)],
            Dir::Left => seq![(x, y), (x - 1, y), (x + 1, y), (x, y + 1)],
            Dir::Up => seq![(x, y), (x, y - 1), (x - 1, y), (x, y + 1)],
        },
        ShapeType::Z => match dir {
            Dir::Right | Dir::Left => seq![(x, y), (x - 1, y), (x, y + 1), (x + 1, y + 1)],
            Dir::Down | Dir::Up => seq![(x, y), (x + 1, y - 1), (x + 1, y), (x, y + 1)],
        },
    }
}

/// The mathematical reading of an executable coordinate list.
pub open spec fn coords_view(s: Seq<(i64, i64)>) -> Seq<(int, int)> {
    s.map_values(|c: (i64, i64)| (c.0 as int, c.1 as int))
}

impl ShapeType {
    /// The cell tag this kind writes into the board.
    pub fn tag(self) -> (t: u8)
        ensures
            t == tag_of(self),
    {
        match self {
            ShapeType::I => 1,
            ShapeType::J => 2,
            ShapeType::L => 3,
            ShapeType::O => 4,
            ShapeType::S => 5,
            ShapeType::T => 6,
            ShapeType::Z => 7,
        }
    }
}

/// Builds the absolute cell list of a piece of the given kind at origin
/// (`x`, `y`) under the given facing.  The bound on the origin only keeps
/// the offset arithmetic inside `i64`.
pub fn coords_at(kind: ShapeType, dir: Dir, x: i64, y: i64) -> (r: Vec<(i64, i64)>)
    requires
        -0x1000_0000_0000 <= x <= 0x1000_0000_0000,
        -0x1000_0000_0000 <= y <= 0x1000_0000_0000,
    ensures
        r@.len() == 4,
        coords_view(r@) == shape_cells(kind, dir, x as int, y as int),
{
    let r: Vec<(i64, i64)> = match kind {
        ShapeType::I => match dir {
            Dir::Right | Dir::Left => vec![(x, y), (x - 1, y), (x + 1, y), (x + 2, y)],
            Dir::Down | Dir::Up => vec![(x, y), (x, y - 3), (x, y - 2), (x, y - 1)],
        },
        ShapeType::J => match dir {
            Dir::Right => vec![(x, y), (x - 1, y - 1), (x - 1, y), (x + 1, y)],
            Dir::Down => vec![(x, y), (x, y - 1), (x + 1, y - 1), (x, y + 1)],
            Dir::Left => vec![(x, y), (x - 1, y), (x + 1, y), (x + 1, y + 1)],
            Dir::Up => vec![(x, y), (x, y - 1), (x - 1, y + 1), (x, y + 1)],
        },
        ShapeType::L => match dir {
            Dir::Right => vec![(x, y), (x - 1, y), (x + 1, y), (x - 1, y + 1)],
            Dir::Down => vec![(x, y), (x - 1, y - 1), (x, y - 1), (x, y + 1)],
            Dir::Left => vec![(x, y), (x + 1, y - 1), (x - 1, y), (x + 1, y)],
            Dir::Up => vec![(x, y), (x, y - 1), (x, y + 1), (x + 1, y + 1)],
        },
        ShapeType::O => vec![(x, y), (x + 1, y), (x, y + 1), (x + 1, y + 1)],
        ShapeType::S => match dir {
            Dir::Right | Dir::Left => vec![(x, y), (x + 1, y), (x - 1, y + 1), (x, y + 1)],
            Dir::Down | Dir::Up => vec![(x, y), (x, y - 1), (x + 1, y), (x + 1, y + 1)],
        },
        ShapeType::T => match dir {
            Dir::Right => vec![(x, y), (x, y - 1), (x - 1, y), (x + 1, y)],
            Dir::Down => vec![(x, y), (x, y - 1), (x + 1, y), (x, y + 1)],
            Dir::Left => vec![(x, y), (x - 1, y), (x + 1, y), (x, y + 1)],
            Dir::Up => vec![(x, y), (x, y - 1), (x - 1, y), (x, y + 1)],
        },
        ShapeType::Z => match dir {
            Dir::Right | Dir::Left => vec![(x, y), (x - 1, y), (x, y + 1), (x + 1, y + 1)],
            Dir::Down | Dir::Up => vec![(x, y), (x + 1, y - 1), (x + 1, y), (x, y + 1)],
        },
    };
    proof {
        assert(coords_view(r@) =~= shape_cells(kind, dir, x as int, y as int));
    }
    r
}

impl Shape {
    /// A fresh piece of the given kind at origin (`x`, `y`), facing Right.
    pub fn new(x: i32, y: i32, shape_type: ShapeType) -> (s: Self)
        ensures
            s == (Shape { dir: Dir::Right, shape_type, x, y }),
    {
        Shape { dir: Dir::Right, shape_type, x, y }
    }
}

/// Geometry of a piece: its absolute cells under a facing, and the facing
/// one rotation ahead.
pub trait ShapeTrait {
    /// The cells the piece would occupy under the given facing.
    spec fn cells_at(&self, dir: Dir) -> Seq<(int, int)>;

    /// Returns the absolute cell list of the piece under the given facing,
    /// home cell first, the rest left to right, top to bottom.
    fn to_coords(&self, dir: Dir) -> (r: Vec<(i64, i64)>)
        ensures
            r@.len() == 4,
            coords_view(r@) == self.cells_at(dir),
    ;

    /// The facing one rotation step after `dir`.
    fn next_dir(&self, dir: Dir) -> (r: Dir)
        ensures
            r == next_dir_of(dir),
    ;
}

impl ShapeTrait for Shape {
    open spec fn cells_at(&self, dir: Dir) -> Seq<(int, int)> {
        shape_cells(self.shape_type, dir, self.x as int, self.y as int)
    }

    fn to_coords(&self, dir: Dir) -> (r: Vec<(i64, i64)>) {
        coords_at(self.shape_type, dir, self.x as i64, self.y as i64)
    }

    fn next_dir(&self, dir: Dir) -> (r: Dir) {
        match dir {
            Dir::Right => Dir::Down,
            Dir::Down => Dir::Left,
            Dir::Left => Dir::Up,
            Dir::Up => Dir::Right,
        }
    }
}

/// Advancing the facing four times returns to the starting facing, so a
/// full rotation cycle returns a piece's cell set to its original value,
/// whatever the kind and origin.
pub proof fn lemma_rotation_cycle(kind: ShapeType, dir: Dir, x: int, y: int)
    ensures
        next_dir_of(next_dir_of(next_dir_of(next_dir_of(dir)))) == dir,
        shape_cells(kind, next_dir_of(next_dir_of(next_dir_of(next_dir_of(dir)))), x, y)
            == shape_cells(kind, dir, x, y),
{
}

/// Every piece occupies exactly four cells, and the first of them is the
/// home cell: the one whose coordinates equal the piece's stored origin.
pub proof fn lemma_home_cell(kind: ShapeType, dir: Dir, x: int, y: int)
    ensures
        shape_cells(kind, dir, x, y).len() == 4,
        shape_cells(kind, dir, x, y)[0] == (x, y),
{
}

} // verus!
