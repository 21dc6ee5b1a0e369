//! The falling piece: its gestures, each checked whole against the well and the stack before it takes effect.
use vstd::prelude::*;
use crate::geometry::{Block, WELL_HEIGHT, WELL_WIDTH, hits, in_well};
use crate::stack::Stack;

verus! {

/// The falling piece: its blocks, the first of which is the pivot of
/// rotation, and whether it may rotate at all.
#[derive(Clone, Debug)]
pub struct Piece {
    pub blocks: Vec<Block>,
    pub rotatable: bool,
}

/// What a piece is, as far as the rules care.
pub struct PieceView {
    pub blocks: Seq<Block>,
    pub rotatable: bool,
}

impl View for Piece {
    type V = PieceView;

    open spec fn view(&self) -> PieceView {
        PieceView { blocks: self.blocks@, rotatable: self.rotatable }
    }
}

/// `b` moved by `dx` columns and `dy` rows.
pub open spec fn shift(b: Block, dx: int, dy: int) -> Block {
    Block { x: (b.x + dx) as i32, y: (b.y + dy) as i32, style: b.style }
}

pub open spec fn shift_all(s: Seq<Block>, dx: int, dy: int) -> Seq<Block> {
    s.map_values(|b: Block| shift(b, dx, dy))
}

/// Moving every block of `s` by `(dx, dy)` stays within `i32`.
pub open spec fn shift_fits(s: Seq<Block>, dx: int, dy: int) -> bool {
    forall|i: int|
        0 <= i < s.len() ==> i32::MIN <= #[trigger] s[i].x + dx <= i32::MAX && i32::MIN <= s[i].y
            + dy <= i32::MAX
}

/// `b` turned a quarter around the pivot `c`.
pub open spec fn turn(b: Block, c: Block) -> Block {
    Block { x: (c.x - (b.y - c.y)) as i32, y: (c.y + (b.x - c.x)) as i32, style: b.style }
}

/// Turning every block of `s` around its first block stays within `i32`.
pub open spec fn turn_fits(s: Seq<Block>) -> bool {
    s.len() > 0 ==> forall|i: int|
        0 <= i < s.len() ==> i32::MIN <= s[0].x - (#[trigger] s[i].y - s[0].y) <= i32::MAX
            && i32::MIN <= s[0].y + (s[i].x - s[0].x) <= i32::MAX
}

/// The blocks of a piece after a rotation: unchanged for a piece that may not
/// rotate or has fewer than two blocks, else each block turned around the pivot.
pub open spec fn rotation(p: PieceView) -> Seq<Block> {
    if !p.rotatable || p.blocks.len() < 2 {
        p.blocks
    } else {
        p.blocks.map_values(|b: Block| turn(b, p.blocks[0]))
    }
}

/// A candidate set of blocks may replace the piece: every block inside the
/// well and off the stack.
pub open spec fn valid(s: Seq<Block>, stack: Seq<Block>) -> bool {
    forall|i: int| 0 <= i < s.len() ==> in_well(#[trigger] s[i]) && !hits(stack, s[i])
}

/// Whether the piece can no longer fall: some block, one row lower, would
/// reach the floor or land on the stack.
pub open spec fn blocked(s: Seq<Block>, stack: Seq<Block>) -> bool {
    exists|i: int|
        0 <= i < s.len() && (#[trigger] s[i].y + 1 >= WELL_HEIGHT || hits(stack, shift(s[i], 0, 1)))
}

/// The four gestures that act on the falling piece.
#[derive(Clone, Copy, Debug, PartialEq, Eq)]
pub enum Action {
    Rotate,
    Left,
    Right,
    Down,
}

/// The blocks a gesture would put the piece on, before any check.
pub open spec fn candidate(p: PieceView, a: Action) -> Seq<Block> {
    match a {
        Action::Rotate => rotation(p),
        Action::Left => shift_all(p.blocks, -1, 0),
        Action::Right => shift_all(p.blocks, 1, 0),
        Action::Down => shift_all(p.blocks, 0, 1),
    }
}

/// The gesture can be computed within `i32`.
pub open spec fn action_fits(p: PieceView, a: Action) -> bool {
    match a {
        Action::Rotate => turn_fits(p.blocks),
        Action::Left => shift_fits(p.blocks, -1, 0),
        Action::Right => shift_fits(p.blocks, 1, 0),
        Action::Down => shift_fits(p.blocks, 0, 1),
    }
}

/// A gesture takes effect when its candidate is valid; a rotation also
/// needs a piece that may rotate and has at least two blocks.
pub open spec fn takes_effect(p: PieceView, a: Action, stack: Seq<Block>) -> bool {
    &&& (a == Action::Rotate ==> p.rotatable && p.blocks.len() >= 2)
    &&& valid(candidate(p, a), stack)
}

/// The piece after a gesture: the candidate when the gesture takes effect,
/// else the piece as it was.
pub open spec fn act(p: PieceView, a: Action, stack: Seq<Block>) -> PieceView {
    if takes_effect(p, a, stack) {
        PieceView { blocks: candidate(p, a), rotatable: p.rotatable }
    } else {
        p
    }
}

/// A move that would put any block on the column left of the well or on the
/// column of its right wall is rejected, and the piece stays as it was.
pub proof fn lemma_move_past_wall_rejected(p: PieceView, dx: int, dy: int, stack: Seq<Block>, i: int)
    requires
        0 <= i < p.blocks.len(),
        shift_fits(p.blocks, dx, dy),
        p.blocks[i].x + dx == -1 || p.blocks[i].x + dx == WELL_WIDTH,
    ensures
        !valid(shift_all(p.blocks, dx, dy), stack),
        dx == -1 && dy == 0 ==> act(p, Action::Left, stack) == p,
        dx == 1 && dy == 0 ==> act(p, Action::Right, stack) == p,
{
    assert(!in_well(shift_all(p.blocks, dx, dy)[i]));
}

/// Whether every block of `candidate` lies inside the well and off the stack.
pub fn is_valid(candidate: &Vec<Block>, stack: &Stack) -> (r: bool)
    ensures
        r == valid(candidate@, stack@),
{
    let mut i: usize = 0;
    while i < candidate.len()
        invariant
            0 <= i <= candidate.len(),
            forall|k: int| 0 <= k < i ==> in_well(#[trigger] candidate@[k]) && !hits(stack@, candidate@[k]),
        decreases candidate.len() - i,
    {
        let b = &candidate[i];
        if b.x < 0 || b.x >= WELL_WIDTH || b.y >= WELL_HEIGHT || stack.occupies(b) {
            return false;
        }
        i += 1;
    }
    true
}

impl Piece {
    /// The same piece moved by `dx` columns and `dy` rows, unchecked.
    pub fn translated(&self, dx: i32, dy: i32) -> (r: Piece)
        requires
            shift_fits(self@.blocks, dx as int, dy as int),
        ensures
            r@ == (PieceView { blocks: shift_all(self@.blocks, dx as int, dy as int), rotatable: self.rotatable }),
    {
        let mut out: Vec<Block> = Vec::new();
        let mut i: usize = 0;
        while i < self.blocks.len()
            invariant
                0 <= i <= self.blocks.len(),
                shift_fits(self@.blocks, dx as int, dy as int),
                out@.len() == i,
                forall|k: int| 0 <= k < i ==> out@[k] == shift(#[trigger] self@.blocks[k], dx as int, dy as int),
            decreases self.blocks.len() - i,
        {
            let b = self.blocks[i];
            out.push(Block { x: b.x + dx, y: b.y + dy, style: b.style });
            i += 1;
        }
        assert(out@ =~= shift_all(self@.blocks, dx as int, dy as int));
        Piece { blocks: out, rotatable: self.rotatable }
    }

    /// The same piece rotated a quarter turn around its first block, unchecked.
    pub fn rotated(&self) -> (r: Piece)
        requires
            turn_fits(self@.blocks),
        ensures
            r@ == (PieceView { blocks: rotation(self@), rotatable: self.rotatable }),
            self@.blocks.len() > 0 ==> r@.blocks[0] == self@.blocks[0],
    {
        if !self.rotatable || self.blocks.len() < 2 {
            return self.clone_piece();
        }
        let cx = self.blocks[0].x;
        let cy = self.blocks[0].y;
        let mut out: Vec<Block> = Vec::new();
        let mut i: usize = 0;
        while i < self.blocks.len()
            invariant
                0 <= i <= self.blocks.len(),
                self.blocks.len() >= 2,
                cx == self@.blocks[0].x,
                cy == self@.blocks[0].y,
                turn_fits(self@.blocks),
                out@.len() == i,
                forall|k: int| 0 <= k < i ==> out@[k] == turn(#[trigger] self@.blocks[k], self@.blocks[0]),
            decreases self.blocks.len() - i,
        {
            let b = self.blocks[i];
            let x = (cx as i64 - (b.y as i64 - cy as i64)) as i32;
            let y = (cy as i64 + (b.x as i64 - cx as i64)) as i32;
            out.push(Block { x, y, style: b.style });
            i += 1;
        }
        assert(out@ =~= rotation(self@));
        Piece { blocks: out, rotatable: self.rotatable }
    }

    /// Moves the piece by `dx` columns and `dy` rows if every moved block is
    /// valid; otherwise leaves it as it was. Returns whether it moved.
    pub fn try_move(&mut self, dx: i32, dy: i32, stack: &Stack) -> (moved: bool)
        requires
            shift_fits(old(self)@.blocks, dx as int, dy as int),
        ensures
            moved == valid(shift_all(old(self)@.blocks, dx as int, dy as int), stack@),
            final(self)@ == (if moved {
                PieceView { blocks: shift_all(old(self)@.blocks, dx as int, dy as int), rotatable: old(self).rotatable }
            } else {
                old(self)@
            }),
    {
        let next = self.translated(dx, dy);
        if is_valid(&next.blocks, stack) {
            *self = next;
            true
        } else {
            false
        }
    }

    /// Rotates the piece a quarter turn around its first block if it may
    /// rotate and every turned block is valid; otherwise leaves it as it was.
    /// Returns whether it turned. The pivot never moves.
    pub fn try_rotate(&mut self, stack: &Stack) -> (turned: bool)
        requires
            turn_fits(old(self)@.blocks),
        ensures
            turned == (old(self).rotatable && old(self)@.blocks.len() >= 2 && valid(rotation(old(self)@), stack@)),
            final(self)@ == (if turned {
                PieceView { blocks: rotation(old(self)@), rotatable: old(self).rotatable }
            } else {
                old(self)@
            }),
            final(self)@.blocks.len() == old(self)@.blocks.len(),
            old(self)@.blocks.len() > 0 ==> final(self)@.blocks[0] == old(self)@.blocks[0],
    {
        if !self.rotatable || self.blocks.len() < 2 {
            return false;
        }
        let next = self.rotated();
        if is_valid(&next.blocks, stack) {
            *self = next;
            true
        } else {
            false
        }
    }

    /// Whether the piece can fall no further: one row lower, some block would
    /// reach the floor or land on the stack.
    pub fn blocked_below(&self, stack: &Stack) -> (r: bool)
        requires
            shift_fits(self@.blocks, 0, 1),
        ensures
            r == blocked(self@.blocks, stack@),
    {
        let mut i: usize = 0;
        while i < self.blocks.len()
            invariant
                0 <= i <= self.blocks.len(),
                shift_fits(self@.blocks, 0, 1),
                forall|k: int|
                    0 <= k < i ==> !(#[trigger] self@.blocks[k].y + 1 >= WELL_HEIGHT || hits(
                        stack@,
                        shift(self@.blocks[k], 0, 1),
                    )),
            decreases self.blocks.len() - i,
        {
            let b = self.blocks[i];
            let below = Block { x: b.x, y: b.y + 1, style: b.style };
            if below.y >= WELL_HEIGHT || stack.occupies(&below) {
                assert(below == shift(self@.blocks[i as int], 0, 1));
                return true;
            }
            i += 1;
        }
        false
    }

    /// A copy of the piece.
    pub fn clone_piece(&self) -> (r: Piece)
        ensures
            r@ == self@,
    {
        let mut out: Vec<Block> = Vec::new();
        let mut i: usize = 0;
        while i < self.blocks.len()
            invariant
                0 <= i <= self.blocks.len(),
                out@ == self@.blocks.subrange(0, i as int),
            decreases self.blocks.len() - i,
        {
            out.push(self.blocks[i]);
            i += 1;
            assert(out@ =~= self@.blocks.subrange(0, i as int));
        }
        assert(out@ =~= self@.blocks);
        Piece { blocks: out, rotatable: self.rotatable }
    }
}

/// Applies one gesture to the piece through the validity check: the piece
/// either takes the gesture's candidate whole or stays as it was.
/// Returns whether the gesture took effect.
pub fn try_action(action: Action, stack: &Stack, piece: &mut Piece) -> (changed: bool)
    requires
        action_fits(old(piece)@, action),
    ensures
        final(piece)@ == act(old(piece)@, action, stack@),
        changed == takes_effect(old(piece)@, action, stack@),
        (exists|i: int|
            0 <= i < candidate(old(piece)@, action).len() && !in_well(
                #[trigger] candidate(old(piece)@, action)[i],
            )) ==> final(piece)@ == old(piece)@,
        action == Action::Rotate && old(piece)@.blocks.len() > 0 ==> final(piece)@.blocks[0] == old(
            piece,
        )@.blocks[0],
{
    match action {
        Action::Rotate => piece.try_rotate(stack),
        Action::Left => piece.try_move(-1, 0, stack),
        Action::Right => piece.try_move(1, 0, stack),
        Action::Down => piece.try_move(0, 1, stack),
    }
}

} // verus!
