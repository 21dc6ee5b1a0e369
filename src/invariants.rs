//! What every reachable state of a round keeps: settled blocks inside the well, never two on one cell.
use vstd::prelude::*;
use crate::engine::{Input, RoundView, after_clear, after_fall, after_input, after_spawn, bounded, fall_fires, gesture, lemma_gesture_bounded, locks, tick_result, add_reward};
use crate::geometry::{Block, WELL_HEIGHT, WELL_WIDTH, distinct_cells, hits, in_well, same_pos};
use crate::piece::{Action, PieceView, act, blocked, candidate, shift, shift_all, takes_effect, valid};
use crate::shape::{spawn_ok, spawned, template};
use crate::stack::{at_top, cells_in_well, lemma_clear_from_idle, lemma_clear_from_keeps, lemma_clear_from_no_full, lemma_row_count_bound, lemma_row_count_concat, no_full_row, row_count};

verus! {

/// The falling piece fits where it is: four blocks on four cells, inside the
/// well, off the stack, and bounded.
pub open spec fn piece_ok(p: PieceView, stack: Seq<Block>) -> bool {
    &&& bounded(p)
    &&& p.blocks.len() == 4
    &&& valid(p.blocks, stack)
    &&& distinct_cells(p.blocks)
}

/// What holds of a round that is still going: every settled block inside the
/// well and below the top row, no two on one cell, no full row left, and a
/// falling piece, if any, that fits.
pub open spec fn round_inv(r: RoundView) -> bool {
    &&& cells_in_well(r.stack)
    &&& !at_top(r.stack)
    &&& distinct_cells(r.stack)
    &&& no_full_row(r.stack)
    &&& r.active is Some ==> piece_ok(r.active->0, r.stack)
}

proof fn lemma_gesture_keeps(p: PieceView, a: Action, stack: Seq<Block>)
    requires
        piece_ok(p, stack),
    ensures
        piece_ok(act(p, a, stack), stack),
{
    lemma_gesture_bounded(p, a, stack);
    if takes_effect(p, a, stack) {
        let c = candidate(p, a);
        assert forall|i: int, j: int| 0 <= i < c.len() && 0 <= j < c.len() && i != j implies !same_pos(
            #[trigger] c[i],
            #[trigger] c[j],
        ) by {
            assert(!same_pos(p.blocks[i], p.blocks[j]));
            assert(0 <= p.blocks[i].x < WELL_WIDTH);
            assert(0 <= p.blocks[j].x < WELL_WIDTH);
            assert(0 <= p.blocks[0].x < WELL_WIDTH);
        }
    }
}

proof fn lemma_input_keeps(r: RoundView, input: Input)
    requires
        round_inv(r),
    ensures
        round_inv(after_input(r, input)),
        after_input(r, input).stack == r.stack,
{
    if r.active is Some {
        let p = r.active->0;
        lemma_gesture_keeps(p, Action::Rotate, r.stack);
        let turned = gesture(r.active, input.rotate, Action::Rotate, r.stack)->0;
        lemma_gesture_keeps(turned, Action::Right, r.stack);
        let shifted_right = gesture(Some(turned), input.right, Action::Right, r.stack)->0;
        lemma_gesture_keeps(shifted_right, Action::Left, r.stack);
        let shifted_left = gesture(Some(shifted_right), input.left, Action::Left, r.stack)->0;
        lemma_gesture_keeps(shifted_left, Action::Down, r.stack);
    }
}

/// A piece that cannot fall is put into the stack: every block stays in the
/// well and on a cell of its own.
proof fn lemma_lock_keeps(stack: Seq<Block>, p: PieceView)
    requires
        cells_in_well(stack),
        !at_top(stack),
        distinct_cells(stack),
        piece_ok(p, stack),
    ensures
        cells_in_well(stack + p.blocks),
        distinct_cells(stack + p.blocks),
        forall|k: int| k <= 0 ==> #[trigger] row_count(stack + p.blocks, k) < WELL_WIDTH,
{
    let s = stack + p.blocks;
    assert forall|i: int| 0 <= i < s.len() implies in_well(#[trigger] s[i]) by {
        if i >= stack.len() {
            assert(s[i] == p.blocks[i - stack.len()]);
        }
    }
    assert forall|i: int, j: int| 0 <= i < s.len() && 0 <= j < s.len() && i != j implies !same_pos(
        #[trigger] s[i],
        #[trigger] s[j],
    ) by {
        if i < stack.len() && j >= stack.len() {
            assert(!hits(stack, p.blocks[j - stack.len()]));
            assert(!same_pos(stack[i], p.blocks[j - stack.len()]));
        } else if i >= stack.len() && j < stack.len() {
            assert(!hits(stack, p.blocks[i - stack.len()]));
            assert(!same_pos(stack[j], p.blocks[i - stack.len()]));
        } else if i >= stack.len() && j >= stack.len() {
            assert(!same_pos(p.blocks[i - stack.len()], p.blocks[j - stack.len()]));
        }
    }
    assert forall|k: int| k <= 0 implies #[trigger] row_count(s, k) < WELL_WIDTH by {
        lemma_row_count_concat(stack, p.blocks, k);
        lemma_row_count_bound(p.blocks, k);
        assert forall|i: int| 0 <= i < stack.len() implies #[trigger] stack[i].y != k by {
            assert(!(stack[i].y <= 0));
        }
        lemma_row_count_bound(stack, k);
    }
}

/// Gravity keeps the round's invariant when it does not lock; when it locks,
/// the well is left without a piece and the stack holds the piece's blocks.
proof fn lemma_fall_keeps(a: RoundView, dt: u64)
    requires
        round_inv(a),
    ensures
        !locks(a, dt) ==> round_inv(after_fall(a, dt)) && after_fall(a, dt).stack == a.stack,
        locks(a, dt) ==> {
            let f = after_fall(a, dt);
            &&& f.active is None
            &&& cells_in_well(f.stack)
            &&& distinct_cells(f.stack)
            &&& forall|k: int| k <= 0 ==> #[trigger] row_count(f.stack, k) < WELL_WIDTH
        },
{
    if fall_fires(a, dt) && a.active is Some {
        let p = a.active->0;
        if blocked(p.blocks, a.stack) {
            lemma_lock_keeps(a.stack, p);
        } else {
            assert(takes_effect(p, Action::Down, a.stack)) by {
                let c = candidate(p, Action::Down);
                assert forall|i: int| 0 <= i < c.len() implies in_well(#[trigger] c[i]) && !hits(a.stack, c[i]) by {
                    assert(in_well(p.blocks[i]));
                    assert(!(p.blocks[i].y + 1 >= WELL_HEIGHT || hits(a.stack, shift(p.blocks[i], 0, 1))));
                }
            }
            lemma_gesture_keeps(p, Action::Down, a.stack);
            assert(act(p, Action::Down, a.stack) == PieceView {
                blocks: shift_all(p.blocks, 0, 1),
                rotatable: p.rotatable,
            });
        }
    }
}

proof fn lemma_spawned_fits(shape: int, column: int)
    requires
        spawn_ok(shape, column),
    ensures
        bounded(spawned(shape, column)),
        spawned(shape, column).blocks.len() == 4,
        distinct_cells(spawned(shape, column).blocks),
        forall|i: int| 0 <= i < 4 ==> #[trigger] spawned(shape, column).blocks[i].y <= 0 && in_well(
            spawned(shape, column).blocks[i],
        ),
{
    let b = spawned(shape, column).blocks;
    let t = template(shape);
    assert(t.len() == 4);
    assert(b[0] == Block { x: (column + t[0].0) as i32, y: t[0].1 as i32, style: shape as u8 });
    assert(b[1] == Block { x: (column + t[1].0) as i32, y: t[1].1 as i32, style: shape as u8 });
    assert(b[2] == Block { x: (column + t[2].0) as i32, y: t[2].1 as i32, style: shape as u8 });
    assert(b[3] == Block { x: (column + t[3].0) as i32, y: t[3].1 as i32, style: shape as u8 });
}

/// One tick from a round that is still going: the stack keeps every block inside the well's
/// walls and above its floor, with no two blocks on one cell, and if the
/// round goes on, every block is also at or below the top row and the whole
/// invariant holds again.
pub proof fn lemma_tick_keeps_invariant(r: RoundView, input: Input, dt: u64, shape: int, column: int)
    requires
        round_inv(r),
        spawn_ok(shape, column),
    ensures
        cells_in_well(tick_result(r, input, dt, shape, column).stack),
        distinct_cells(tick_result(r, input, dt, shape, column).stack),
        !at_top(tick_result(r, input, dt, shape, column).stack) ==> round_inv(
            tick_result(r, input, dt, shape, column),
        ),
        forall|i: int|
            0 <= i < tick_result(r, input, dt, shape, column).stack.len() ==> 0 <= #[trigger] tick_result(
                r,
                input,
                dt,
                shape,
                column,
            ).stack[i].x < WELL_WIDTH,
{
    let a = after_input(r, input);
    lemma_input_keeps(r, input);
    let f = after_fall(a, dt);
    lemma_fall_keeps(a, dt);
    let locked = locks(a, dt);
    let c = after_clear(f, dt, locked);
    if locked {
        lemma_clear_from_keeps(f.stack, 0);
        lemma_clear_from_no_full(f.stack, 0);
    } else {
        lemma_clear_from_idle(f.stack, 0);
        assert(add_reward(f.score, 0) == f.score);
    }
    assert(cells_in_well(c.stack) && distinct_cells(c.stack) && no_full_row(c.stack));
    assert(c.active is Some ==> piece_ok(c.active->0, c.stack));
    let n = after_spawn(c, shape, column);
    assert(n.stack == c.stack);
    if c.active is None {
        lemma_spawned_fits(shape, column);
        let p = spawned(shape, column);
        if !at_top(n.stack) {
            assert forall|i: int| 0 <= i < p.blocks.len() implies in_well(#[trigger] p.blocks[i]) && !hits(
                n.stack,
                p.blocks[i],
            ) by {
                assert(p.blocks[i].y <= 0);
                assert forall|j: int| 0 <= j < n.stack.len() implies !same_pos(#[trigger] n.stack[j], p.blocks[i]) by {
                    assert(!(n.stack[j].y <= 0));
                }
            }
        }
    }
    assert forall|i: int| 0 <= i < n.stack.len() implies 0 <= #[trigger] n.stack[i].x < WELL_WIDTH by {
        assert(in_well(n.stack[i]));
    }
}

/// A new round, with an empty stack and no piece, meets the invariant.
pub proof fn lemma_new_round_invariant(r: RoundView)
    requires
        r.active is None,
        r.stack == Seq::<Block>::empty(),
    ensures
        round_inv(r),
{
    assert forall|k: int| k < WELL_HEIGHT implies #[trigger] row_count(r.stack, k) < WELL_WIDTH by {
        lemma_row_count_bound(r.stack, k);
    }
}

} // verus!
