use tetris::engine::{Input, RoundState, INITIAL_FALL_INTERVAL, ROW_REWARD};
use tetris::geometry::{Block, WELL_HEIGHT, WELL_WIDTH};
use tetris::piece::{is_valid, try_action, Action, Piece};
use tetris::round::{next_phase, Event, Phase};
use tetris::shape::{random_spawn, shape_at, shape_reach, SQUARE};
use tetris::stack::Stack;

fn idle() -> Input {
    Input { rotate: false, left: false, right: false, down: false }
}

fn cells(blocks: &[Block]) -> Vec<(i32, i32)> {
    blocks.iter().map(|b| (b.x, b.y)).collect()
}

fn full_row(y: i32) -> Vec<Block> {
    (0..WELL_WIDTH).map(|x| Block::new(x, y, 1)).collect()
}

#[test]
fn square_template_at_column_four() {
    let p = shape_at(SQUARE, 4);
    assert_eq!(cells(&p.blocks), vec![(4, -1), (4, 0), (5, 0), (5, -1)]);
    assert!(!p.rotatable);
    let line = shape_at(3, 7);
    assert_eq!(cells(&line.blocks), vec![(7, 0), (6, 0), (8, 0), (9, 0)]);
    assert_eq!(shape_reach(3), 2);
    assert_eq!(shape_reach(SQUARE), 1);
    assert!(line.rotatable);
}

#[test]
fn move_off_left_wall_is_rejected() {
    let stack = Stack::new();
    let mut p = shape_at(1, 1);
    let before = cells(&p.blocks);
    assert!(!try_action(Action::Left, &stack, &mut p));
    assert_eq!(cells(&p.blocks), before);
    assert!(try_action(Action::Right, &stack, &mut p));
    assert_eq!(cells(&p.blocks), vec![(2, 0), (3, 0), (1, 0), (1, -1)]);
}

#[test]
fn move_off_right_wall_is_rejected() {
    let stack = Stack::new();
    let mut p = shape_at(3, 7);
    let before = cells(&p.blocks);
    assert!(!p.try_move(1, 0, &stack));
    assert_eq!(cells(&p.blocks), before);
}

#[test]
fn move_onto_stack_is_rejected() {
    let stack = Stack { blocks: vec![Block::new(5, 1, 0)] };
    let mut p = shape_at(SQUARE, 4);
    assert!(!p.try_move(0, 1, &stack));
    assert_eq!(cells(&p.blocks), vec![(4, -1), (4, 0), (5, 0), (5, -1)]);
    assert!(!is_valid(&vec![Block::new(5, 1, 3)], &stack));
    assert!(is_valid(&vec![Block::new(5, -4, 3)], &stack));
    assert!(!is_valid(&vec![Block::new(0, WELL_HEIGHT, 3)], &stack));
}

#[test]
fn rotation_turns_around_the_pivot() {
    let stack = Stack::new();
    let mut p = shape_at(3, 4);
    assert!(p.try_rotate(&stack));
    assert_eq!(cells(&p.blocks), vec![(4, 0), (4, -1), (4, 1), (4, 2)]);
    assert!(p.try_rotate(&stack));
    assert_eq!(cells(&p.blocks), vec![(4, 0), (5, 0), (3, 0), (2, 0)]);
}

#[test]
fn rotation_into_the_floor_is_rejected() {
    let stack = Stack::new();
    let mut p = Piece { blocks: vec![Block::new(4, 19, 3), Block::new(5, 19, 3)], rotatable: true };
    assert!(!p.try_rotate(&stack));
    assert_eq!(cells(&p.blocks), vec![(4, 19), (5, 19)]);
}

#[test]
fn square_never_rotates() {
    let stack = Stack::new();
    let mut p = shape_at(SQUARE, 4);
    let before = cells(&p.blocks);
    for _ in 0..8 {
        assert!(!p.try_rotate(&stack));
        assert_eq!(cells(&p.blocks), before);
    }
}

#[test]
fn bottom_row_clears_and_rows_above_fall() {
    let mut blocks = full_row(19);
    blocks.push(Block::new(3, 18, 2));
    blocks.push(Block::new(7, 10, 2));
    let mut stack = Stack { blocks };
    assert_eq!(stack.row_len(19), 10);
    assert_eq!(stack.clear_full_rows(), 1);
    assert_eq!(cells(&stack.blocks), vec![(3, 19), (7, 11)]);
    assert_eq!(stack.row_len(19), 1);
}

#[test]
fn round_clears_full_row_and_scores() {
    let mut state = RoundState::new();
    let mut blocks = full_row(19);
    blocks.push(Block::new(2, 17, 4));
    state.stack = Stack { blocks };
    let over = state.tick(idle(), 20, 2, 4);
    assert!(!over);
    assert_eq!(state.score, ROW_REWARD);
    assert_eq!(cells(&state.stack.blocks), vec![(2, 18)]);
}

#[test]
fn two_full_rows_clear_in_one_scan() {
    let mut blocks = full_row(18);
    blocks.extend(full_row(19));
    blocks.push(Block::new(0, 17, 0));
    let mut stack = Stack { blocks };
    assert_eq!(stack.clear_full_rows(), 2);
    assert_eq!(cells(&stack.blocks), vec![(0, 19)]);
}

#[test]
fn piece_locks_on_the_tick_it_is_blocked() {
    let mut state = RoundState::new();
    state.stack = Stack { blocks: vec![Block::new(4, 19, 1)] };
    state.active = Some(Piece { blocks: vec![Block::new(4, 18, 0), Block::new(5, 18, 0)], rotatable: false });
    let interval = state.fall_interval;
    state.advance_fall(interval);
    assert!(state.active.is_none());
    assert_eq!(cells(&state.stack.blocks), vec![(4, 19), (4, 18), (5, 18)]);
}

#[test]
fn piece_locks_on_the_floor() {
    let mut state = RoundState::new();
    state.active = Some(Piece { blocks: vec![Block::new(0, 19, 0)], rotatable: false });
    let locked = state.advance_fall(INITIAL_FALL_INTERVAL);
    assert!(locked);
    assert!(state.active.is_none());
    assert_eq!(cells(&state.stack.blocks), vec![(0, 19)]);
}

#[test]
fn piece_falls_only_when_timer_fires() {
    let mut state = RoundState::new();
    state.active = Some(shape_at(SQUARE, 4));
    assert!(!state.advance_fall(INITIAL_FALL_INTERVAL - 1));
    assert_eq!(cells(&state.active.as_ref().unwrap().blocks), vec![(4, -1), (4, 0), (5, 0), (5, -1)]);
    assert!(!state.advance_fall(1));
    assert_eq!(cells(&state.active.as_ref().unwrap().blocks), vec![(4, 0), (4, 1), (5, 1), (5, 0)]);
    assert_eq!(state.since_fall, 0);
}

#[test]
fn same_seed_gives_same_spawns() {
    quad_rand::srand(42);
    let first: Vec<(usize, i32)> = (0..50).map(|_| random_spawn()).collect();
    quad_rand::srand(42);
    let second: Vec<(usize, i32)> = (0..50).map(|_| random_spawn()).collect();
    assert_eq!(first, second);
}

#[test]
fn random_spawns_cover_the_catalog() {
    quad_rand::srand(7);
    let draws: Vec<(usize, i32)> = (0..400).map(|_| random_spawn()).collect();
    for (shape, column) in &draws {
        assert!(*shape < 7);
        assert!(1 <= *column && *column <= WELL_WIDTH - 1 - shape_reach(*shape));
        let piece = shape_at(*shape, *column);
        assert!(piece.blocks.iter().all(|b| 0 <= b.x && b.x < WELL_WIDTH));
    }
    for s in 0..7 {
        assert!(draws.iter().any(|d| d.0 == s));
    }
    for c in 1..=8 {
        assert!(draws.iter().any(|d| d.1 == c));
    }
}

#[test]
fn block_at_top_row_ends_round() {
    let mut state = RoundState::new();
    state.stack = Stack { blocks: vec![Block::new(3, 0, 1)] };
    assert!(state.stack.reaches_top());
    assert!(state.tick(idle(), 0, 1, 5));
    let mut other = RoundState::new();
    other.stack = Stack { blocks: vec![Block::new(3, 0, 1)] };
    other.active = Some(shape_at(2, 6));
    let press = Input { rotate: true, left: true, right: false, down: true };
    assert!(other.tick(press, 1000, 1, 5));
}

#[test]
fn stack_below_top_keeps_round_going() {
    let mut state = RoundState::new();
    state.stack = Stack { blocks: vec![Block::new(3, 1, 1)] };
    assert!(!state.stack.reaches_top());
    assert!(!state.tick(idle(), 0, 1, 5));
}

#[test]
fn square_falls_five_rows_intact() {
    let mut state = RoundState::new();
    assert!(!state.tick(idle(), 0, SQUARE, 4));
    let start = cells(&state.active.as_ref().unwrap().blocks);
    assert_eq!(start, vec![(4, -1), (4, 0), (5, 0), (5, -1)]);
    for _ in 0..5 {
        let dt = state.fall_interval;
        assert!(!state.tick(idle(), dt, SQUARE, 4));
    }
    let end = cells(&state.active.as_ref().unwrap().blocks);
    let expected: Vec<(i32, i32)> = start.iter().map(|(x, y)| (*x, *y + 5)).collect();
    assert_eq!(end, expected);
}

#[test]
fn fall_interval_shortens_at_each_spawn() {
    let mut state = RoundState::new();
    state.tick(idle(), 0, 1, 4);
    assert_eq!(state.fall_interval, INITIAL_FALL_INTERVAL - 5);
    state.active = None;
    state.fall_interval = 103;
    state.tick(idle(), 0, 1, 4);
    assert_eq!(state.fall_interval, 100);
    state.active = None;
    state.tick(idle(), 0, 1, 4);
    assert_eq!(state.fall_interval, 100);
}

#[test]
fn score_saturates() {
    let mut state = RoundState::new();
    state.score = u32::MAX - 3;
    state.stack = Stack { blocks: full_row(19) };
    state.advance_clear(20, false);
    assert_eq!(state.score, u32::MAX);
}

#[test]
fn tick_with_random_spawn_installs_a_piece() {
    quad_rand::srand(3);
    let mut state = RoundState::new();
    assert!(!state.tick_random(idle(), 0));
    assert_eq!(state.active.as_ref().unwrap().blocks.len(), 4);
}

#[test]
fn input_moves_piece_before_gravity() {
    let mut state = RoundState::new();
    state.tick(idle(), 0, SQUARE, 4);
    let press = Input { rotate: false, left: true, right: false, down: false };
    let dt = state.fall_interval;
    state.tick(press, dt, SQUARE, 4);
    assert_eq!(cells(&state.active.as_ref().unwrap().blocks), vec![(3, 0), (3, 1), (4, 1), (4, 0)]);
}

#[test]
fn phases_cycle() {
    assert_eq!(next_phase(Phase::Menu, Event::Frame), Phase::Menu);
    assert_eq!(next_phase(Phase::Menu, Event::Confirm), Phase::Playing);
    assert_eq!(next_phase(Phase::Playing, Event::Frame), Phase::Playing);
    assert_eq!(next_phase(Phase::Playing, Event::RoundOver), Phase::GameOver);
    assert_eq!(next_phase(Phase::GameOver, Event::Frame), Phase::Menu);
}

#[test]
fn created_shape_spawns_at_its_column() {
    quad_rand::srand(11);
    for _ in 0..50 {
        let (piece, column) = tetris::shape::create_shape();
        assert!(1 <= column && column <= WELL_WIDTH - 1 - shape_reach(piece.blocks[0].style as usize));
        assert!(piece.blocks.iter().all(|b| 0 <= b.x && b.x < WELL_WIDTH));
        assert_eq!(piece.blocks.len(), 4);
        assert!(piece.blocks.iter().any(|b| b.x == column));
        let shape = piece.blocks[0].style as usize;
        assert_eq!(cells(&piece.blocks), cells(&shape_at(shape, column).blocks));
        assert_eq!(piece.rotatable, shape != SQUARE);
    }
}

#[test]
fn long_play_keeps_stack_in_well_and_on_distinct_cells() {
    let mut seed: u64 = 12345;
    let mut next = move || {
        seed = seed.wrapping_mul(6364136223846793005).wrapping_add(1442695040888963407);
        (seed >> 33) as u32
    };
    let mut rounds = 0;
    let mut state = RoundState::new();
    for _ in 0..20000 {
        let r = next();
        let input = Input { rotate: r & 1 != 0, left: r & 6 == 2, right: r & 6 == 4, down: r & 8 != 0 };
        let shape = (next() % 7) as usize;
        let column = (next() % (WELL_WIDTH - 1 - shape_reach(shape)) as u32) as i32 + 1;
        let over = state.tick(input, 60, shape, column);
        let blocks = &state.stack.blocks;
        for (i, a) in blocks.iter().enumerate() {
            assert!(0 <= a.x && a.x < WELL_WIDTH);
            assert!(a.y < WELL_HEIGHT);
            if !over {
                assert!(0 <= a.y);
            }
            for b in &blocks[i + 1..] {
                assert!(!(a.x == b.x && a.y == b.y));
            }
        }
        if over {
            rounds += 1;
            state = RoundState::new();
        }
    }
    assert!(rounds > 0);
}

#[test]
fn straight_piece_at_rightmost_column_settles_inside() {
    let mut state = RoundState::new();
    assert!(!state.tick(idle(), 0, 3, 7));
    for _ in 0..40 {
        let dt = state.fall_interval;
        if state.tick(idle(), dt, 1, 4) {
            break;
        }
    }
    assert!(!state.stack.blocks.is_empty());
    assert!(state.stack.blocks.iter().all(|b| 0 <= b.x && b.x < WELL_WIDTH && b.y < WELL_HEIGHT));
}

#[test]
fn rotate_rejected_keeps_pivot_and_square_only_rotate_is_still() {
    let stack = Stack::new();
    let mut p = shape_at(3, 4);
    let pivot = p.blocks[0];
    let turned = p.rotated();
    assert_eq!(turned.blocks[0], pivot);
    let mut sq = shape_at(SQUARE, 2);
    let before = cells(&sq.blocks);
    assert!(!try_action(Action::Rotate, &stack, &mut sq));
    assert_eq!(cells(&sq.blocks), before);
    p.blocks[0] = Block::new(0, 19, 3);
    p.blocks[1] = Block::new(1, 19, 3);
    assert!(!try_action(Action::Rotate, &stack, &mut p));
    assert_eq!(p.blocks[0], Block::new(0, 19, 3));
}

#[test]
fn scan_drops_each_block_by_full_rows_below_it() {
    let mut blocks = full_row(12);
    blocks.extend(full_row(19));
    blocks.push(Block::new(4, 5, 0));
    blocks.push(Block::new(6, 15, 0));
    blocks.push(Block::new(1, 18, 0));
    let mut stack = Stack { blocks };
    assert_eq!(stack.clear_full_rows(), 2);
    assert_eq!(cells(&stack.blocks), vec![(4, 7), (6, 16), (1, 19)]);
}
