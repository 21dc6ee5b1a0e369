//! The well's dimensions and the single cell, the unit of every piece and of the stack.
use vstd::prelude::*;

verus! {

/// Width of the well, in cells.
pub const WELL_WIDTH: i32 = 10;

/// Depth of the well, in cells.
pub const WELL_HEIGHT: i32 = 20;

/// Side of one cell, in pixels, for whoever draws the well.
pub const BLOCK_SIZE: i32 = 30;

/// One occupied cell. `x` is the column, `y` the row, growing downward;
/// `style` only says how the cell is drawn.
#[derive(Clone, Copy, Debug, PartialEq, Eq)]
pub struct Block {
    pub x: i32,
    pub y: i32,
    pub style: u8,
}

/// Two blocks collide when they stand on the same cell, whatever their style.
pub open spec fn same_pos(a: Block, b: Block) -> bool {
    a.x == b.x && a.y == b.y
}

/// A block lies inside the well's walls and above its floor; rows above the
/// top are allowed.
pub open spec fn in_well(b: Block) -> bool {
    0 <= b.x < WELL_WIDTH && b.y < WELL_HEIGHT
}

/// No two blocks of `s` share a cell.
pub open spec fn distinct_cells(s: Seq<Block>) -> bool {
    forall|i: int, j: int| 0 <= i < s.len() && 0 <= j < s.len() && i != j ==> !same_pos(s[i], s[j])
}

/// Some block of `s` stands on the cell of `b`.
pub open spec fn hits(s: Seq<Block>, b: Block) -> bool {
    exists|i: int| 0 <= i < s.len() && same_pos(#[trigger] s[i], b)
}

impl Block {
    pub fn new(x: i32, y: i32, style: u8) -> (r: Block)
        ensures
            r == (Block { x, y, style }),
    {
        Block { x, y, style }
    }

    /// Whether two blocks stand on the same cell.
    pub fn same_cell(&self, other: &Block) -> (r: bool)
        ensures
            r == same_pos(*self, *other),
    {
        self.x == other.x && self.y == other.y
    }
}

} // verus!
