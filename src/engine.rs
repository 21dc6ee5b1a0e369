//! One round of play as a state advanced tick by tick: input, gravity, line clears, spawns and the end of the round.
use vstd::prelude::*;
use crate::geometry::{Block, WELL_HEIGHT, WELL_WIDTH};
use crate::piece::{Action, Piece, PieceView, act, blocked, candidate, shift, shift_all, takes_effect, try_action, turn};
use crate::shape::{random_spawn, shape_at, spawn_ok, spawned};
use crate::stack::{Stack, at_top, clear_from};

verus! {

/// Time between two steps of gravity when a round starts, in milliseconds.
pub const INITIAL_FALL_INTERVAL: u64 = 400;

/// The shortest time between two steps of gravity, in milliseconds.
pub const MIN_FALL_INTERVAL: u64 = 100;

/// How much shorter the fall interval gets at each spawn, in milliseconds.
pub const FALL_INTERVAL_STEP: u64 = 5;

/// Period of the scan for full rows, in milliseconds.
pub const CLEAR_PERIOD: u64 = 20;

/// Points for each cleared row.
pub const ROW_REWARD: u32 = 10;

/// The keys pressed during one frame.
#[derive(Clone, Copy, Debug, PartialEq, Eq)]
pub struct Input {
    pub rotate: bool,
    pub left: bool,
    pub right: bool,
    pub down: bool,
}

/// Everything a round holds: the falling piece if any, the stack, the score
/// and the two timers, in milliseconds.
#[derive(Clone, Debug)]
pub struct RoundState {
    pub active: Option<Piece>,
    pub stack: Stack,
    pub score: u32,
    pub fall_interval: u64,
    pub since_fall: u64,
    pub since_clear: u64,
}

/// What a round is, as far as the rules care.
pub struct RoundView {
    pub active: Option<PieceView>,
    pub stack: Seq<Block>,
    pub score: u32,
    pub fall_interval: u64,
    pub since_fall: u64,
    pub since_clear: u64,
}

impl View for RoundState {
    type V = RoundView;

    open spec fn view(&self) -> RoundView {
        RoundView {
            active: match self.active {
                Some(p) => Some(p@),
                None => None,
            },
            stack: self.stack@,
            score: self.score,
            fall_interval: self.fall_interval,
            since_fall: self.since_fall,
            since_clear: self.since_clear,
        }
    }
}

/// The falling piece stays near the well: its columns within the walls, its
/// rows above the floor and not far above the top, and its pivot at the spawn
/// rows or lower.
pub open spec fn bounded(p: PieceView) -> bool {
    &&& forall|i: int|
        0 <= i < p.blocks.len() ==> 0 <= #[trigger] p.blocks[i].x < WELL_WIDTH && -1 - WELL_WIDTH
            <= p.blocks[i].y < WELL_HEIGHT
    &&& p.blocks.len() > 0 ==> p.blocks[0].y >= -1
}

pub open spec fn sat_add(a: u64, b: u64) -> u64 {
    if a + b > u64::MAX {
        u64::MAX
    } else {
        (a + b) as u64
    }
}

/// A gesture applied to the falling piece, if the key was pressed and there
/// is a piece.
pub open spec fn gesture(a: Option<PieceView>, pressed: bool, action: Action, stack: Seq<Block>) -> Option<PieceView> {
    match a {
        Some(p) => if pressed {
            Some(act(p, action, stack))
        } else {
            Some(p)
        },
        None => None,
    }
}

/// The input phase: rotate, then right, then left, then down, each through
/// the validity check.
pub open spec fn after_input(r: RoundView, input: Input) -> RoundView {
    let a1 = gesture(r.active, input.rotate, Action::Rotate, r.stack);
    let a2 = gesture(a1, input.right, Action::Right, r.stack);
    let a3 = gesture(a2, input.left, Action::Left, r.stack);
    let a4 = gesture(a3, input.down, Action::Down, r.stack);
    RoundView { active: a4, ..r }
}

/// Whether the fall timer fires in this tick.
pub open spec fn fall_fires(r: RoundView, dt: u64) -> bool {
    sat_add(r.since_fall, dt) >= r.fall_interval
}

/// Whether this tick locks the piece: the fall timer fires and the piece can
/// fall no further.
pub open spec fn locks(r: RoundView, dt: u64) -> bool {
    fall_fires(r, dt) && r.active is Some && blocked(r.active->0.blocks, r.stack)
}

/// The gravity phase. When the fall timer fires, a piece that cannot fall
/// further goes into the stack unchanged and the well is left without a
/// piece; otherwise the piece moves one row down.
pub open spec fn after_fall(r: RoundView, dt: u64) -> RoundView {
    if !fall_fires(r, dt) {
        RoundView { since_fall: sat_add(r.since_fall, dt), ..r }
    } else {
        match r.active {
            None => RoundView { since_fall: 0, ..r },
            Some(p) => if blocked(p.blocks, r.stack) {
                RoundView { active: None, stack: r.stack + p.blocks, since_fall: 0, ..r }
            } else {
                RoundView {
                    active: Some(PieceView { blocks: shift_all(p.blocks, 0, 1), rotatable: p.rotatable }),
                    since_fall: 0,
                    ..r
                }
            },
        }
    }
}

pub open spec fn add_reward(score: u32, rows: nat) -> u32 {
    if score + ROW_REWARD * rows > u32::MAX {
        u32::MAX
    } else {
        (score + ROW_REWARD * rows) as u32
    }
}

/// The clear phase. The scan runs when its timer fires, and right after a
/// lock, the only event that can fill a row; each cleared row earns the
/// reward.
pub open spec fn after_clear(r: RoundView, dt: u64, locked: bool) -> RoundView {
    if sat_add(r.since_clear, dt) >= CLEAR_PERIOD || locked {
        let c = clear_from(r.stack, 0);
        RoundView { stack: c.0, score: add_reward(r.score, c.1), since_clear: 0, ..r }
    } else {
        RoundView { since_clear: sat_add(r.since_clear, dt), ..r }
    }
}

/// The fall interval after a spawn: one step shorter, but not below the floor.
pub open spec fn next_interval(i: u64) -> u64 {
    if i >= MIN_FALL_INTERVAL + FALL_INTERVAL_STEP {
        (i - FALL_INTERVAL_STEP) as u64
    } else if i > MIN_FALL_INTERVAL {
        MIN_FALL_INTERVAL
    } else {
        i
    }
}

/// The spawn phase: a well without a piece gets the given shape at the given
/// column, and the fall interval shortens.
pub open spec fn after_spawn(r: RoundView, shape: int, column: int) -> RoundView {
    if r.active is None {
        RoundView { active: Some(spawned(shape, column)), fall_interval: next_interval(r.fall_interval), ..r }
    } else {
        r
    }
}

/// One tick: input, then gravity, then the scan for full rows, then the
/// spawn, which takes `shape` and `column` if it happens.
pub open spec fn tick_result(r: RoundView, input: Input, dt: u64, shape: int, column: int) -> RoundView {
    let a = after_input(r, input);
    let f = after_fall(a, dt);
    let c = after_clear(f, dt, locks(a, dt));
    after_spawn(c, shape, column)
}

/// A gesture keeps the falling piece bounded, and its candidate can be
/// computed within `i32`.
pub proof fn lemma_gesture_bounded(p: PieceView, a: Action, stack: Seq<Block>)
    requires
        bounded(p),
    ensures
        crate::piece::action_fits(p, a),
        bounded(act(p, a, stack)),
{
    let c = candidate(p, a);
    if p.blocks.len() > 0 {
        assert(0 <= p.blocks[0].x < WELL_WIDTH);
        assert(crate::piece::turn_fits(p.blocks)) by {
            assert forall|i: int| 0 <= i < p.blocks.len() implies i32::MIN <= p.blocks[0].x - (
            #[trigger] p.blocks[i].y - p.blocks[0].y) <= i32::MAX && i32::MIN <= p.blocks[0].y + (
            p.blocks[i].x - p.blocks[0].x) <= i32::MAX by {
                assert(0 <= p.blocks[i].x < WELL_WIDTH);
            }
        }
    }
    assert forall|dx: int, dy: int|
        -1 <= dx <= 1 && -1 <= dy <= 1 implies #[trigger] crate::piece::shift_fits(p.blocks, dx, dy) by {
        assert forall|i: int| 0 <= i < p.blocks.len() implies i32::MIN <= #[trigger] p.blocks[i].x + dx
            <= i32::MAX && i32::MIN <= p.blocks[i].y + dy <= i32::MAX by {
            assert(0 <= p.blocks[i].x < WELL_WIDTH);
        }
    }
    assert(crate::piece::shift_fits(p.blocks, -1, 0));
    assert(crate::piece::shift_fits(p.blocks, 1, 0));
    assert(crate::piece::shift_fits(p.blocks, 0, 1));
    if takes_effect(p, a, stack) {
        assert forall|i: int| 0 <= i < c.len() implies 0 <= #[trigger] c[i].x < WELL_WIDTH && -1
            - WELL_WIDTH <= c[i].y < WELL_HEIGHT by {
            assert(crate::geometry::in_well(c[i]));
            assert(0 <= p.blocks[i].x < WELL_WIDTH);
        }
        if a == Action::Rotate {
            assert(c[0] == turn(p.blocks[0], p.blocks[0]));
        }
    }
}

/// `q` has the blocks of `p` in the same places relative to its first block.
pub open spec fn same_layout(p: Seq<Block>, q: Seq<Block>) -> bool {
    &&& p.len() == q.len()
    &&& forall|i: int|
        0 <= i < p.len() ==> #[trigger] q[i].x - q[0].x == p[i].x - p[0].x && q[i].y - q[0].y == p[i].y
            - p[0].y
}

proof fn lemma_fixed_gesture_layout(p: PieceView, a: Action, stack: Seq<Block>)
    requires
        !p.rotatable,
        bounded(p),
    ensures
        same_layout(p.blocks, act(p, a, stack).blocks),
        !act(p, a, stack).rotatable,
        bounded(act(p, a, stack)),
        a == Action::Rotate ==> act(p, a, stack) == p,
{
    lemma_gesture_bounded(p, a, stack);
    if p.blocks.len() > 0 {
        assert(0 <= p.blocks[0].x < WELL_WIDTH);
    }
    assert forall|i: int| 0 <= i < p.blocks.len() implies 0 <= #[trigger] p.blocks[i].x < WELL_WIDTH
        && -1 - WELL_WIDTH <= p.blocks[i].y < WELL_HEIGHT by {}
}

/// A piece that may not rotate never changes shape in a tick: the input
/// phase and gravity only move it whole, and a tick whose only key is the
/// rotation leaves it where it was.
pub proof fn lemma_fixed_piece_keeps_shape(r: RoundView, input: Input, dt: u64)
    requires
        r.active is Some,
        !r.active->0.rotatable,
        bounded(r.active->0),
    ensures
        after_input(r, input).active is Some,
        same_layout(r.active->0.blocks, after_input(r, input).active->0.blocks),
        after_fall(after_input(r, input), dt).active is Some ==> same_layout(
            r.active->0.blocks,
            after_fall(after_input(r, input), dt).active->0.blocks,
        ),
        !input.left && !input.right && !input.down ==> after_input(r, input) == r,
{
    let p = r.active->0;
    lemma_fixed_gesture_layout(p, Action::Rotate, r.stack);
    let turned = gesture(r.active, input.rotate, Action::Rotate, r.stack)->0;
    lemma_fixed_gesture_layout(turned, Action::Right, r.stack);
    let right = gesture(Some(turned), input.right, Action::Right, r.stack)->0;
    lemma_fixed_gesture_layout(right, Action::Left, r.stack);
    let left = gesture(Some(right), input.left, Action::Left, r.stack)->0;
    lemma_fixed_gesture_layout(left, Action::Down, r.stack);
    let down = gesture(Some(left), input.down, Action::Down, r.stack)->0;
    assert(same_layout(p.blocks, right.blocks));
    assert(same_layout(p.blocks, left.blocks));
    assert(same_layout(p.blocks, down.blocks));
    let fallen = shift_all(down.blocks, 0, 1);
    assert forall|i: int| 0 <= i < down.blocks.len() implies 0 <= #[trigger] down.blocks[i].x < WELL_WIDTH
        && -1 - WELL_WIDTH <= down.blocks[i].y < WELL_HEIGHT by {}
    if down.blocks.len() > 0 {
        assert(fallen[0] == shift(down.blocks[0], 0, 1));
    }
    assert(same_layout(down.blocks, fallen));
    assert(same_layout(p.blocks, fallen));
}

/// A piece that can fall no further when the fall timer fires goes into the
/// stack on that very tick: gravity leaves the well without a piece, and with
/// no key pressed the tick's stack is the scan of the old stack with the
/// piece's blocks added.
pub proof fn lemma_lock_on_detecting_tick(r: RoundView, dt: u64, shape: int, column: int)
    requires
        r.active is Some,
        fall_fires(r, dt),
        blocked(r.active->0.blocks, r.stack),
    ensures
        locks(r, dt),
        after_fall(r, dt).active is None,
        after_fall(r, dt).stack == r.stack + r.active->0.blocks,
        tick_result(r, Input { rotate: false, left: false, right: false, down: false }, dt, shape, column).stack
            == clear_from(r.stack + r.active->0.blocks, 0).0,
{
    let idle = Input { rotate: false, left: false, right: false, down: false };
    assert(after_input(r, idle) == r);
}

/// A stack with a block on the top row ends the round at the next tick's
/// check, whatever the falling piece does, unless that tick clears a row.
pub proof fn lemma_top_row_ends_round(r: RoundView, input: Input, dt: u64, shape: int, column: int, i: int)
    requires
        0 <= i < r.stack.len(),
        r.stack[i].y == 0,
        crate::stack::no_full_row(after_fall(after_input(r, input), dt).stack),
    ensures
        at_top(tick_result(r, input, dt, shape, column).stack),
{
    let a = after_input(r, input);
    let f = after_fall(a, dt);
    crate::stack::lemma_clear_from_idle(f.stack, 0);
    assert(f.stack[i] == r.stack[i]);
    let n = tick_result(r, input, dt, shape, column);
    assert(n.stack[i] == r.stack[i]);
}

/// A scan that finds only the bottom row full clears that row, lowers every
/// other block by one row, and adds exactly one reward to the score.
pub proof fn lemma_bottom_row_clear_scores(r: RoundView, dt: u64)
    requires
        crate::stack::cells_in_well(r.stack),
        crate::stack::full_row(r.stack, WELL_HEIGHT - 1),
        forall|k: int| k < WELL_HEIGHT - 1 ==> !#[trigger] crate::stack::full_row(r.stack, k),
        sat_add(r.since_clear, dt) >= CLEAR_PERIOD,
        r.score + ROW_REWARD <= u32::MAX,
    ensures
        after_clear(r, dt, false).stack == crate::stack::clear_row(r.stack, WELL_HEIGHT - 1),
        after_clear(r, dt, false).score == r.score + ROW_REWARD,
{
    crate::stack::lemma_bottom_row_clear(r.stack);
}

impl RoundState {
    /// What a state needs for a tick to stay within machine integers.
    pub open spec fn wf(&self) -> bool {
        self@.active is Some ==> bounded(self@.active->0)
    }

    /// A new round: no piece yet, an empty stack, no points, the initial fall
    /// interval.
    pub fn new() -> (r: RoundState)
        ensures
            r.wf(),
            r@.active is None,
            r@.stack == Seq::<Block>::empty(),
            r@.score == 0,
            r@.fall_interval == INITIAL_FALL_INTERVAL,
            r@.since_fall == 0,
            r@.since_clear == 0,
    {
        RoundState {
            active: None,
            stack: Stack::new(),
            score: 0,
            fall_interval: INITIAL_FALL_INTERVAL,
            since_fall: 0,
            since_clear: 0,
        }
    }
}

impl RoundState {
    /// Applies one gesture to the falling piece if `pressed`.
    fn press(&mut self, pressed: bool, action: Action)
        requires
            old(self).wf(),
        ensures
            final(self).wf(),
            final(self)@ == (RoundView {
                active: gesture(old(self)@.active, pressed, action, old(self)@.stack),
                ..old(self)@
            }),
    {
        if pressed {
            let mut taken: Option<Piece> = None;
            std::mem::swap(&mut self.active, &mut taken);
            match taken {
                Some(mut p) => {
                    proof {
                        lemma_gesture_bounded(p@, action, self.stack@);
                    }
                    try_action(action, &self.stack, &mut p);
                    self.active = Some(p);
                },
                None => {},
            }
        }
    }

    /// The input phase: rotate, right, left and down, in that order, each one
    /// taking effect whole or not at all.
    pub fn apply_input(&mut self, input: Input)
        requires
            old(self).wf(),
        ensures
            final(self).wf(),
            final(self)@ == after_input(old(self)@, input),
    {
        self.press(input.rotate, Action::Rotate);
        self.press(input.right, Action::Right);
        self.press(input.left, Action::Left);
        self.press(input.down, Action::Down);
    }

    /// The gravity phase: when the fall timer fires, locks a piece that can
    /// fall no further into the stack, or else moves it one row down.
    /// Returns whether a piece was locked.
    pub fn advance_fall(&mut self, dt: u64) -> (locked: bool)
        requires
            old(self).wf(),
        ensures
            final(self).wf(),
            final(self)@ == after_fall(old(self)@, dt),
            locked == locks(old(self)@, dt),
    {
        let t = self.since_fall.saturating_add(dt);
        if t < self.fall_interval {
            self.since_fall = t;
            return false;
        }
        self.since_fall = 0;
        let mut taken: Option<Piece> = None;
        std::mem::swap(&mut self.active, &mut taken);
        match taken {
            None => false,
            Some(p) => {
                proof {
                    lemma_gesture_bounded(p@, Action::Down, self.stack@);
                }
                if p.blocked_below(&self.stack) {
                    self.stack.lock(&p.blocks);
                    true
                } else {
                    let next = p.translated(0, 1);
                    assert forall|i: int| 0 <= i < next@.blocks.len() implies 0 <= #[trigger] next@.blocks[i].x
                        < WELL_WIDTH && -1 - WELL_WIDTH <= next@.blocks[i].y < WELL_HEIGHT by {
                        assert(!(p@.blocks[i].y + 1 >= WELL_HEIGHT || crate::geometry::hits(self.stack@, shift(p@.blocks[i], 0, 1))));
                    }
                    self.active = Some(next);
                    false
                }
            },
        }
    }

    /// The clear phase: when its timer fires or a piece was just locked,
    /// clears the full rows and adds the reward for each.
    pub fn advance_clear(&mut self, dt: u64, locked: bool)
        ensures
            final(self)@ == after_clear(old(self)@, dt, locked),
            final(self).active == old(self).active,
    {
        let t = self.since_clear.saturating_add(dt);
        if t >= CLEAR_PERIOD || locked {
            let n = self.stack.clear_full_rows();
            let gained = ROW_REWARD as u64 * n as u64;
            if self.score as u64 + gained > u32::MAX as u64 {
                self.score = u32::MAX;
            } else {
                self.score = (self.score as u64 + gained) as u32;
            }
            self.since_clear = 0;
        } else {
            self.since_clear = t;
        }
    }

    /// The spawn phase: a well without a piece gets the piece of `shape` at
    /// `column`, and the fall interval gets one step shorter.
    pub fn spawn_if_empty(&mut self, shape: usize, column: i32)
        requires
            old(self).wf(),
            spawn_ok(shape as int, column as int),
        ensures
            final(self).wf(),
            final(self)@ == after_spawn(old(self)@, shape as int, column as int),
    {
        if self.active.is_none() {
            let p = shape_at(shape, column);
            self.active = Some(p);
            if self.fall_interval >= MIN_FALL_INTERVAL + FALL_INTERVAL_STEP {
                self.fall_interval = self.fall_interval - FALL_INTERVAL_STEP;
            } else if self.fall_interval > MIN_FALL_INTERVAL {
                self.fall_interval = MIN_FALL_INTERVAL;
            }
        }
    }

    /// One tick of the round: input, gravity, the scan for full rows, then a
    /// spawn of `shape` at `column` if the well has no piece. Returns whether
    /// the stack has reached the top row, which ends the round.
    pub fn tick(&mut self, input: Input, dt: u64, shape: usize, column: i32) -> (over: bool)
        requires
            old(self).wf(),
            spawn_ok(shape as int, column as int),
        ensures
            final(self).wf(),
            final(self)@ == tick_result(old(self)@, input, dt, shape as int, column as int),
            over == at_top(final(self)@.stack),
    {
        self.apply_input(input);
        let locked = self.advance_fall(dt);
        self.advance_clear(dt, locked);
        self.spawn_if_empty(shape, column);
        self.stack.reaches_top()
    }

    /// One tick of the round that draws the shape and column of a new piece
    /// from the shared generator, only when a piece is spawned. Whatever is
    /// drawn, the round moves as `tick` says for some admissible spawn.
    pub fn tick_random(&mut self, input: Input, dt: u64) -> (over: bool)
        requires
            old(self).wf(),
        ensures
            final(self).wf(),
            exists|shape: int, column: int|
                spawn_ok(shape, column) && final(self)@ == #[trigger] tick_result(
                    old(self)@,
                    input,
                    dt,
                    shape,
                    column,
                ),
            over == at_top(final(self)@.stack),
    {
        let ghost start = self@;
        self.apply_input(input);
        let locked = self.advance_fall(dt);
        self.advance_clear(dt, locked);
        if self.active.is_none() {
            let (shape, column) = random_spawn();
            self.spawn_if_empty(shape, column);
            assert(spawn_ok(shape as int, column as int) && self@ == tick_result(start, input, dt, shape as int, column as int));
        } else {
            assert(spawn_ok(0, 1) && self@ == tick_result(start, input, dt, 0, 1));
        }
        self.stack.reaches_top()
    }
}

} // verus!