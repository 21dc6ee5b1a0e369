//! The catalog of seven shapes and the random choice of the next one.
use vstd::prelude::*;
use crate::geometry::{Block, WELL_WIDTH};
use crate::piece::{Action, Piece, PieceView, act};

verus! {

/// Number of shapes in the catalog.
pub const SHAPE_COUNT: usize = 7;

/// The one shape that never rotates: the square.
pub const SQUARE: usize = 0;

/// The offsets of a shape's four blocks from its spawn column, the pivot first.
pub open spec fn template(shape: int) -> Seq<(int, int)> {
    if shape == 0 {
        seq![(0, -1), (0, 0), (1, 0), (1, -1)]
    } else if shape == 1 {
        seq![(0, 0), (1, 0), (-1, 0), (-1, -1)]
    } else if shape == 2 {
        seq![(0, 0), (1, 0), (-1, 0), (1, -1)]
    } else if shape == 3 {
        seq![(0, 0), (-1, 0), (1, 0), (2, 0)]
    } else if shape == 4 {
        seq![(0, 0), (0, -1), (1, 0), (-1, 0)]
    } else if shape == 5 {
        seq![(0, 0), (0, -1), (1, -1), (-1, 0)]
    } else {
        seq![(0, 0), (0, -1), (1, 0), (-1, -1)]
    }
}

/// How many columns right of its spawn column a shape reaches: two for the
/// straight piece, one for every other shape.
pub open spec fn reach(shape: int) -> int {
    if shape == 3 {
        2
    } else {
        1
    }
}

/// A spawn may pick any shape of the catalog and any column from the second
/// on, as far right as keeps the shape's rightmost block inside the well.
pub open spec fn spawn_ok(shape: int, column: int) -> bool {
    0 <= shape < SHAPE_COUNT && 1 <= column <= WELL_WIDTH - 1 - reach(shape)
}

/// How many columns right of its spawn column a shape reaches.
pub fn shape_reach(shape: usize) -> (r: i32)
    ensures
        r == reach(shape as int),
{
    if shape == 3 {
        2
    } else {
        1
    }
}

/// The piece of `shape` spawned at `column`: block `i` stands at column
/// `column + dx` and row `dy`, where `(dx, dy)` is the template's offset `i`.
pub open spec fn spawned(shape: int, column: int) -> PieceView {
    PieceView {
        blocks: template(shape).map_values(
            |d: (int, int)| Block { x: (column + d.0) as i32, y: d.1 as i32, style: shape as u8 },
        ),
        rotatable: shape != SQUARE,
    }
}

/// The piece after `n` rotations, each through the validity check.
pub open spec fn rotate_times(p: PieceView, stack: Seq<Block>, n: nat) -> PieceView
    decreases n,
{
    if n == 0 {
        p
    } else {
        act(rotate_times(p, stack, (n - 1) as nat), Action::Rotate, stack)
    }
}

/// A square, wherever it spawned, keeps its blocks under any number of
/// rotations, whatever the stack.
pub proof fn lemma_square_never_rotates(column: int, stack: Seq<Block>, n: nat)
    ensures
        rotate_times(spawned(SQUARE as int, column), stack, n) == spawned(SQUARE as int, column),
    decreases n,
{
    if n > 0 {
        lemma_square_never_rotates(column, stack, (n - 1) as nat);
    }
}

fn four(column: i32, style: u8, a: (i32, i32), b: (i32, i32), c: (i32, i32), d: (i32, i32)) -> (r: Vec<Block>)
    requires
        1 <= column <= WELL_WIDTH - 2,
        -1 <= a.0 <= 2 && -1 <= b.0 <= 2 && -1 <= c.0 <= 2 && -1 <= d.0 <= 2,
    ensures
        r@ == seq![
            Block { x: (column + a.0) as i32, y: a.1, style },
            Block { x: (column + b.0) as i32, y: b.1, style },
            Block { x: (column + c.0) as i32, y: c.1, style },
            Block { x: (column + d.0) as i32, y: d.1, style },
        ],
{
    let mut r: Vec<Block> = Vec::new();
    r.push(Block { x: column + a.0, y: a.1, style });
    r.push(Block { x: column + b.0, y: b.1, style });
    r.push(Block { x: column + c.0, y: c.1, style });
    r.push(Block { x: column + d.0, y: d.1, style });
    assert(r@ =~= seq![
        Block { x: (column + a.0) as i32, y: a.1, style },
        Block { x: (column + b.0) as i32, y: b.1, style },
        Block { x: (column + c.0) as i32, y: c.1, style },
        Block { x: (column + d.0) as i32, y: d.1, style },
    ]);
    r
}

/// The piece of `shape` spawned at `column`, its pivot first.
pub fn shape_at(shape: usize, column: i32) -> (r: Piece)
    requires
        spawn_ok(shape as int, column as int),
    ensures
        r@ == spawned(shape as int, column as int),
{
    let style = shape as u8;
    let blocks = if shape == 0 {
        four(column, style, (0, -1), (0, 0), (1, 0), (1, -1))
    } else if shape == 1 {
        four(column, style, (0, 0), (1, 0), (-1, 0), (-1, -1))
    } else if shape == 2 {
        four(column, style, (0, 0), (1, 0), (-1, 0), (1, -1))
    } else if shape == 3 {
        four(column, style, (0, 0), (-1, 0), (1, 0), (2, 0))
    } else if shape == 4 {
        four(column, style, (0, 0), (0, -1), (1, 0), (-1, 0))
    } else if shape == 5 {
        four(column, style, (0, 0), (0, -1), (1, -1), (-1, 0))
    } else {
        four(column, style, (0, 0), (0, -1), (1, 0), (-1, -1))
    };
    let r = Piece { blocks, rotatable: shape != SQUARE };
    assert(r@.blocks =~= spawned(shape as int, column as int).blocks);
    r
}

/// Relies on quad_rand::gen_range for `i32`: it scales one 32-bit draw of the
/// generator into `[low, high)` and truncates, so for small non-negative
/// bounds the result lies in `[low, high)`.
#[verifier::external_body]
fn random_range(low: i32, high: i32) -> (r: i32)
    requires
        0 <= low < high <= 1024,
    ensures
        low <= r < high,
{
    quad_rand::gen_range(low, high)
}

/// Draws a shape of the catalog and a spawn column from the shared
/// generator: the same seed gives the same sequence of draws.
pub fn random_spawn() -> (r: (usize, i32))
    ensures
        spawn_ok(r.0 as int, r.1 as int),
{
    let shape = random_range(0, SHAPE_COUNT as i32);
    let column = random_range(1, WELL_WIDTH - shape_reach(shape as usize));
    (shape as usize, column)
}

/// A piece of a shape drawn at random, at a column drawn at random, with
/// that column.
pub fn create_shape() -> (r: (Piece, i32))
    ensures
        exists|shape: int| spawn_ok(shape, r.1 as int) && r.0@ == #[trigger] spawned(shape, r.1 as int),
{
    let (shape, column) = random_spawn();
    let piece = shape_at(shape, column);
    let r = (piece, column);
    assert(spawn_ok(shape as int, r.1 as int) && r.0@ == spawned(shape as int, r.1 as int));
    r
}

} // verus!
