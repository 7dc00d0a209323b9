use std::cell::RefCell;

use tetrust::block::{Block, BlockType, Rotation};
use tetrust::game::GameState;
use tetrust::mocks::SingleValueRangeRng;
use tetrust::randwrapper::{RangeRng, ThreadRangeRng};
use tetrust::util::Vec2;

const STEADY_TICK_MS: u64 = 250;

fn tick<R: RangeRng>(game_state: &mut GameState<R>) {
    game_state.update(STEADY_TICK_MS);
}

fn active_cells<R: RangeRng>(game_state: &GameState<R>) -> Vec<Vec2> {
    let (block, pos) = game_state.active_block().unwrap();
    block
        .cells()
        .iter()
        .map(|c| Vec2 {
            x: c.x + pos.x,
            y: c.y + pos.y,
        })
        .collect()
}

#[test]
fn test_rotation_kick_exhaustion() {
    // A T piece sits in a T-shaped hole walled in by settled cells (the
    // rightmost column stays clear of any kick candidate): every kick
    // candidate collides, so rotating either way changes nothing.
    let board = [
        vec![true, true, true, true, true, false],
        vec![true, true, true, true, true, false],
        vec![true, true, true, true, true, false],
        vec![true, true, true, true, true, false],
        vec![true, true, true, true, true, false],
        vec![true, true, false, true, true, false],
        vec![true, false, false, false, true, false],
        vec![true, true, true, true, true, false],
        vec![true, true, true, true, true, false],
    ];
    let active_block = Block {
        rot: Rotation::Rot0,
        block_type: BlockType::T,
    };
    let active_block_pos = Vec2 { x: 1, y: 5 };
    let mut game_state = GameState::make_from_seed(
        &board,
        active_block,
        active_block_pos,
        0,
        0,
        ThreadRangeRng::new(),
    );

    game_state.rotate_block(1);
    let (block, pos) = game_state.active_block().unwrap();
    assert_eq!(block.rot, Rotation::Rot0);
    assert_eq!(block.block_type, BlockType::T);
    assert_eq!(pos, active_block_pos);

    game_state.rotate_block(-1);
    let (block, pos) = game_state.active_block().unwrap();
    assert_eq!(block.rot, Rotation::Rot0);
    assert_eq!(pos, active_block_pos);
}

#[test]
fn test_rotation_in_open_space_spins_in_place() {
    // With nothing in the way the first kick candidate, the null offset,
    // wins: the piece spins without moving.
    let board = vec![vec![false; 10]; 20];
    let active_block = Block {
        rot: Rotation::Rot0,
        block_type: BlockType::T,
    };
    let active_block_pos = Vec2 { x: 3, y: 5 };
    let mut game_state = GameState::make_from_seed(
        &board,
        active_block,
        active_block_pos,
        0,
        0,
        ThreadRangeRng::new(),
    );

    game_state.rotate_block(1);
    let (block, pos) = game_state.active_block().unwrap();
    assert_eq!(block.rot, Rotation::Rot1);
    assert_eq!(pos, active_block_pos);
}

#[test]
fn test_o_rotation_keeps_absolute_cells() {
    let board = vec![vec![false; 10]; 20];
    let active_block = Block {
        rot: Rotation::Rot0,
        block_type: BlockType::O,
    };
    let active_block_pos = Vec2 { x: 4, y: 7 };
    let mut game_state = GameState::make_from_seed(
        &board,
        active_block,
        active_block_pos,
        0,
        0,
        ThreadRangeRng::new(),
    );

    let cells_before = active_cells(&game_state);
    game_state.rotate_block(1);
    assert_eq!(active_cells(&game_state), cells_before);
    game_state.rotate_block(-1);
    assert_eq!(active_cells(&game_state), cells_before);
    game_state.rotate_block(0);
    assert_eq!(active_cells(&game_state), cells_before);
}

#[test]
fn test_o_pieces_stack_to_game_over() {
    // Board of 20 by 30 with a random source that always yields the O
    // shape: the pieces stack perfectly in the two center columns until the
    // stack reaches the top and the final piece can no longer enter the
    // board.
    const WIDTH: i32 = 20;
    const HEIGHT: i32 = 30;
    let mut game_state = GameState::new(
        WIDTH,
        HEIGHT,
        SingleValueRangeRng::new(BlockType::O.number()),
    );

    while !game_state.is_game_over() {
        tick(&mut game_state);
    }

    // Every row holds exactly the two center cells: each O pair-row stacks
    // exactly atop the previous one with no gaps.
    assert_eq!(
        game_state.get_settled_piece_count(),
        (HEIGHT * 2) as usize
    );
    let cells = RefCell::new(vec![]);
    game_state.for_each_settled_piece(|block_type: BlockType, pos: Vec2| {
        cells.borrow_mut().push((block_type, pos));
    });
    let mut seen = vec![vec![false; WIDTH as usize]; HEIGHT as usize];
    for (block_type, pos) in cells.into_inner() {
        assert_eq!(block_type, BlockType::O);
        assert!(pos.x >= 0 && pos.x < WIDTH && pos.y >= 0 && pos.y < HEIGHT);
        assert!(pos.x == 9 || pos.x == 10);
        assert!(!seen[pos.y as usize][pos.x as usize]);
        seen[pos.y as usize][pos.x as usize] = true;
    }
    for row in &seen {
        assert!(row[9] && row[10]);
    }

    // The final piece never settled: it was blocked while still above row 0.
    let (_, pos) = game_state.active_block().unwrap();
    assert!(pos.y < 0);
}

#[test]
fn test_active_piece_never_overlaps_settled_cells() {
    // Drive a deterministic game to its end, checking at every tick that
    // the active piece's cells stay off the settled cells.
    let mut game_state = GameState::new(6, 12, SingleValueRangeRng::new(BlockType::S.number()));
    while !game_state.is_game_over() {
        tick(&mut game_state);
        if let Some((block, pos)) = game_state.active_block() {
            let settled = RefCell::new(vec![]);
            game_state.for_each_settled_piece(|_, cell: Vec2| {
                settled.borrow_mut().push(cell);
            });
            let settled = settled.into_inner();
            for c in block.cells().iter() {
                let abs = Vec2 {
                    x: c.x + pos.x,
                    y: c.y + pos.y,
                };
                if abs.y >= 0 {
                    assert!(!settled.contains(&abs));
                }
            }
        }
    }
}

#[test]
fn test_quick_drop_rests_on_stack() {
    let board = [
        vec![false, false, false, false, false, false],
        vec![false, false, false, false, false, false],
        vec![false, false, false, false, false, false],
        vec![false, false, false, false, false, false],
        vec![false, false, false, false, false, false],
        vec![false, false, false, false, false, false],
        vec![false, false, false, false, false, false],
        vec![false, false, false, false, false, false],
        vec![true, true, true, true, true, false],
    ];
    let active_block = Block {
        rot: Rotation::Rot0,
        block_type: BlockType::O,
    };
    let mut game_state = GameState::make_from_seed(
        &board,
        active_block,
        Vec2 { x: 0, y: 0 },
        0,
        0,
        ThreadRangeRng::new(),
    );
    game_state.quick_drop();
    let (_, pos) = game_state.active_block().unwrap();
    // The O piece's bottom cell row lands directly above the full row.
    assert_eq!(pos.y, 6);
}
