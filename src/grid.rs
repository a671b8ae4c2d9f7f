//! The play field: integer cells, directions, and the boundary test.

use vstd::prelude::*;
use vstd::set_lib::{lemma_int_range, lemma_len_subset, set_int_range};

verus! {

/// Leftmost column of the field.
pub const FIELD_MIN_X: i32 = -10;

/// Rightmost column of the field.
pub const FIELD_MAX_X: i32 = 10;

/// Bottom row of the field.
pub const FIELD_MIN_Y: i32 = -7;

/// Top row of the field.
pub const FIELD_MAX_Y: i32 = 7;

/// Number of rows; cells are numbered column by column.
pub const FIELD_HEIGHT: u32 = 15;

/// Number of cells in the field.
pub const FIELD_CELLS: u32 = 315;

/// One cell of the play field.
#[derive(Clone, Copy, Debug, PartialEq, Eq, Structural)]
pub struct Coord {
    pub x: i32,
    pub y: i32,
}

/// A direction of travel. `Still` holds only before the first move.
#[derive(Clone, Copy, Debug, PartialEq, Eq, Structural)]
pub enum Direction {
    Up,
    Down,
    Left,
    Right,
    Still,
}

pub open spec fn in_field(c: Coord) -> bool {
    FIELD_MIN_X <= c.x <= FIELD_MAX_X && FIELD_MIN_Y <= c.y <= FIELD_MAX_Y
}

/// Whether `a` and `b` point in exactly opposite directions.
pub open spec fn opposite(a: Direction, b: Direction) -> bool {
    match (a, b) {
        (Direction::Up, Direction::Down) => true,
        (Direction::Down, Direction::Up) => true,
        (Direction::Left, Direction::Right) => true,
        (Direction::Right, Direction::Left) => true,
        _ => false,
    }
}

pub open spec fn dx(d: Direction) -> int {
    match d {
        Direction::Left => -1,
        Direction::Right => 1,
        _ => 0,
    }
}

pub open spec fn dy(d: Direction) -> int {
    match d {
        Direction::Down => -1,
        Direction::Up => 1,
        _ => 0,
    }
}

/// The cell one step from `c` in direction `d` (`c` itself for `Still`).
pub open spec fn neighbour(c: Coord, d: Direction) -> Coord {
    Coord { x: (c.x + dx(d)) as i32, y: (c.y + dy(d)) as i32 }
}

/// Position of an in-field cell in the column-by-column numbering.
pub open spec fn cell_index(c: Coord) -> int {
    (c.x - FIELD_MIN_X) * FIELD_HEIGHT + (c.y - FIELD_MIN_Y)
}

/// The cell numbered `k`, for `0 <= k < FIELD_CELLS`.
pub open spec fn cell_at(k: int) -> Coord {
    Coord { x: (FIELD_MIN_X + k / FIELD_HEIGHT as int) as i32, y: (FIELD_MIN_Y + k % FIELD_HEIGHT as int) as i32 }
}

impl Coord {
    pub fn new(x: i32, y: i32) -> (r: Coord)
        ensures
            r.x == x,
            r.y == y,
    {
        Coord { x, y }
    }

    pub fn in_field(&self) -> (r: bool)
        ensures
            r == in_field(*self),
    {
        FIELD_MIN_X <= self.x && self.x <= FIELD_MAX_X && FIELD_MIN_Y <= self.y && self.y <= FIELD_MAX_Y
    }

    /// The neighbouring cell in direction `d`; a cell of the field or one just outside it.
    pub fn step(&self, d: Direction) -> (r: Coord)
        requires
            in_field(*self),
        ensures
            r == neighbour(*self, d),
            r.x == self.x + dx(d),
            r.y == self.y + dy(d),
    {
        match d {
            Direction::Up => Coord { x: self.x, y: self.y + 1 },
            Direction::Down => Coord { x: self.x, y: self.y - 1 },
            Direction::Left => Coord { x: self.x - 1, y: self.y },
            Direction::Right => Coord { x: self.x + 1, y: self.y },
            Direction::Still => *self,
        }
    }
}

impl Direction {
    pub fn is_opposite(self, other: Direction) -> (r: bool)
        ensures
            r == opposite(self, other),
    {
        match (self, other) {
            (Direction::Up, Direction::Down) => true,
            (Direction::Down, Direction::Up) => true,
            (Direction::Left, Direction::Right) => true,
            (Direction::Right, Direction::Left) => true,
            _ => false,
        }
    }
}

/// The numbering of cells is a bijection between the field and `0..FIELD_CELLS`.
pub proof fn lemma_cell_numbering(c: Coord, k: int)
    ensures
        in_field(c) ==> 0 <= cell_index(c) < FIELD_CELLS && cell_at(cell_index(c)) == c,
        0 <= k < FIELD_CELLS ==> in_field(cell_at(k)) && cell_index(cell_at(k)) == k,
{
    if in_field(c) {
        let i = cell_index(c);
        assert(i / 15 == c.x - FIELD_MIN_X && i % 15 == c.y - FIELD_MIN_Y) by (nonlinear_arith)
            requires
                i == (c.x - FIELD_MIN_X) * 15 + (c.y - FIELD_MIN_Y),
                0 <= c.y - FIELD_MIN_Y < 15,
        ;
    }
    if 0 <= k < FIELD_CELLS {
        assert(0 <= k / 15 <= 20 && 0 <= k % 15 < 15 && (k / 15) * 15 + k % 15 == k) by (nonlinear_arith)
            requires
                0 <= k < 315,
        ;
    }
}

/// Distinct cells of the field are at most as many as the field has.
pub proof fn lemma_distinct_cells_fit(s: Seq<Coord>)
    requires
        s.no_duplicates(),
        forall|i: int| 0 <= i < s.len() ==> in_field(#[trigger] s[i]),
    ensures
        s.len() <= FIELD_CELLS,
{
    let m = s.map_values(|c: Coord| cell_index(c));
    assert forall|i: int, j: int| 0 <= i < m.len() && 0 <= j < m.len() && i != j implies m[i] != m[j] by {
        lemma_cell_numbering(s[i], 0);
        lemma_cell_numbering(s[j], 0);
    }
    assert(m.no_duplicates());
    m.unique_seq_to_set();
    lemma_int_range(0, FIELD_CELLS as int);
    assert forall|v: int| m.to_set().contains(v) implies set_int_range(0, FIELD_CELLS as int).contains(v) by {
        let i = choose|i: int| 0 <= i < m.len() && m[i] == v;
        lemma_cell_numbering(s[i], 0);
    }
    lemma_len_subset(m.to_set(), set_int_range(0, FIELD_CELLS as int));
}

} // verus!
