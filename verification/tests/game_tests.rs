use std::cell::RefCell;

use tetrust::block::{Block, BlockType, Rotation};
use tetrust::game::GameState;
use tetrust::mocks::{SequenceRangeRng, SingleValueRangeRng};
use tetrust::randwrapper::{RangeRng, ThreadRangeRng};
use tetrust::util::Vec2;

const STEADY_TICK_MS: u64 = 250;

fn tick<R: RangeRng>(game_state: &mut GameState<R>) {
    game_state.update(STEADY_TICK_MS);
}

fn default_test_board<R: RangeRng>(block_type_rng: R) -> GameState<R> {
    const TEST_BOARD_WIDTH: i32 = 20;
    const TEST_BOARD_HEIGHT: i32 = 30;
    GameState::new(TEST_BOARD_WIDTH, TEST_BOARD_HEIGHT, block_type_rng)
}

fn test_board_from_seed(
    board: &[Vec<bool>],
    active_block: Block,
    active_block_pos: Vec2,
    score: usize,
    line_score: usize,
) -> GameState<ThreadRangeRng> {
    GameState::make_from_seed(
        board,
        active_block,
        active_block_pos,
        score,
        line_score,
        ThreadRangeRng::new(),
    )
}

#[test]
fn test_game_over_is_final() {
    // This test gets the board to a game over state and verifies that
    // further game ticks will not change the game state.

    let mut game_state = default_test_board(ThreadRangeRng::new());
    while !game_state.is_game_over() {
        tick(&mut game_state);
    }

    let expected_final_settled_piece_count = game_state.get_settled_piece_count();
    for _ in 0..5 {
        tick(&mut game_state);
    }
    assert_eq!(
        game_state.get_settled_piece_count(),
        expected_final_settled_piece_count
    );
    assert!(game_state.is_game_over());
}

#[test]
fn test_expected_game_over() {
    const EXPECTED_FINAL_BOARD: [[bool; 4]; 16] = [
        [false, true, true, false],
        [false, true, true, false],
        [false, true, true, false],
        [false, true, true, false],
        [false, true, true, false],
        [false, true, true, false],
        [false, true, true, false],
        [false, true, true, false],
        [false, true, true, false],
        [false, true, true, false],
        [false, true, true, false],
        [false, true, true, false],
        [false, true, true, false],
        [false, true, true, false],
        [false, true, true, false],
        [false, true, true, false],
    ];

    const TEST_BOARD_WIDTH: i32 = EXPECTED_FINAL_BOARD[0].len() as i32;
    const TEST_BOARD_HEIGHT: i32 = EXPECTED_FINAL_BOARD.len() as i32;

    // This test generates only 'O' pieces perfectly stacking on each other
    // on the board and verifies the end state.
    let mut game_state = GameState::new(
        TEST_BOARD_WIDTH,
        TEST_BOARD_HEIGHT,
        SingleValueRangeRng::new(BlockType::O.number()),
    );

    while !game_state.is_game_over() {
        tick(&mut game_state);
    }

    // Verify all settled pieces are inbounds
    let expected_final_settled_piece_count: usize = EXPECTED_FINAL_BOARD
        .iter()
        .map(|row| row.iter().filter(|col| **col).count())
        .sum();
    assert_eq!(
        game_state.get_settled_piece_count(),
        expected_final_settled_piece_count
    );

    let out_of_bounds_settled_pieces = RefCell::new(vec![]);
    game_state.for_each_settled_piece(|block_type: BlockType, pos: Vec2| {
        if pos.x < 0 || pos.x >= TEST_BOARD_WIDTH || pos.y < 0 || pos.y >= TEST_BOARD_HEIGHT {
            out_of_bounds_settled_pieces
                .borrow_mut()
                .push((block_type, pos));
        }
    });
    assert_eq!(out_of_bounds_settled_pieces.into_inner(), vec![]);

    let final_board: RefCell<[[bool; 4]; 16]> = RefCell::new([[false, false, false, false]; 16]);
    game_state.for_each_settled_piece(|_, pos: Vec2| {
        final_board.borrow_mut()[pos.y as usize][pos.x as usize] = true;
    });
    assert_eq!(final_board.into_inner(), EXPECTED_FINAL_BOARD);

    // Verify the out of bound active piece
    let maybe_active_block = game_state.active_block();
    assert!(maybe_active_block.is_some());

    let (_, active_block_pos) = maybe_active_block.unwrap();
    assert_eq!(active_block_pos, Vec2 { x: 0, y: -2 });
}

fn active_block_distance_to_left_wall<R: RangeRng>(game_state: &GameState<R>) -> i32 {
    let block = game_state.active_block().unwrap();
    let active_block_pos = block.1;
    active_block_pos.x + block.0.left()
}

fn active_block_distance_to_right_wall<R: RangeRng>(game_state: &GameState<R>) -> i32 {
    let block = game_state.active_block().unwrap();
    let active_block_width = block.0.width();
    let active_block_pos = block.1;
    let active_block_rightmost_cell = active_block_pos.x + block.0.left() + active_block_width - 1;

    (game_state.width() - 1) - active_block_rightmost_cell
}

fn drop_active_block<R: RangeRng>(game_state: &mut GameState<R>) {
    game_state.quick_drop();
    tick(game_state);
}

#[test]
fn test_lr_collisions() {
    let mut game_state = default_test_board(SingleValueRangeRng::new(BlockType::S.number()));

    // generate first block
    assert!(game_state.active_block().is_none());
    tick(&mut game_state);
    assert!(game_state.active_block().is_some());

    // verify that a block can be moved left which will change its position
    let distance_to_left_wall = active_block_distance_to_left_wall(&game_state);
    for _ in 0..distance_to_left_wall {
        game_state.move_active_block_horizontal(-1);
        assert_ne!(
            distance_to_left_wall,
            active_block_distance_to_left_wall(&game_state)
        );
    }

    // verify that once a block collides with the left wall it can't move left
    // any further but it can move right
    assert_eq!(active_block_distance_to_left_wall(&game_state), 0);
    game_state.move_active_block_horizontal(-1);
    assert_eq!(active_block_distance_to_left_wall(&game_state), 0);
    game_state.move_active_block_horizontal(1);
    assert_eq!(active_block_distance_to_left_wall(&game_state), 1);
    drop_active_block(&mut game_state);

    // verify that a block can be moved right which will change its position
    assert_eq!(game_state.get_settled_piece_count(), 4); // verify that the first piece has settled
    tick(&mut game_state); // generate the next block
    let distance_to_right_wall = active_block_distance_to_right_wall(&game_state);
    for _ in 0..distance_to_right_wall {
        game_state.move_active_block_horizontal(1);
        assert_ne!(
            distance_to_right_wall,
            active_block_distance_to_right_wall(&game_state)
        );
    }
    // verify that once a block collides with the right wall it can't move
    // right any further but it can move left
    assert_eq!(active_block_distance_to_right_wall(&game_state), 0);
    game_state.move_active_block_horizontal(1);
    assert_eq!(active_block_distance_to_right_wall(&game_state), 0);
    game_state.move_active_block_horizontal(-1);
    assert_eq!(active_block_distance_to_right_wall(&game_state), 1);
    drop_active_block(&mut game_state);

    // generate a stack of blocks in the middle
    for _ in 0..3 {
        drop_active_block(&mut game_state);
    }

    // move latest block off to the right
    let (active_block, _) = game_state.active_block().unwrap();
    for _ in 0..active_block.width() {
        game_state.move_active_block_horizontal(1);
    }

    // drop the latest block until its 1 block away from touching the bottom
    for _ in 0..(game_state.height() - 1) {
        tick(&mut game_state);
    }

    let (active_block, active_block_pos) = game_state.active_block().unwrap();
    assert_eq!(
        active_block_pos.y,
        game_state.height() - 1 - active_block.height()
    );

    // can't move the last block to the left because of collision
    let left_wall_distance_before = active_block_distance_to_left_wall(&game_state);
    game_state.move_active_block_horizontal(-1);
    assert_eq!(
        active_block_distance_to_left_wall(&game_state),
        left_wall_distance_before
    );

    // drop the last block 1 more time so it is touching the bottom
    tick(&mut game_state);
    let (active_block, active_block_pos) = game_state.active_block().unwrap();
    assert_eq!(
        active_block_pos.y,
        game_state.height() - active_block.height()
    );

    // the last block can now move left
    game_state.move_active_block_horizontal(-1);
    assert_eq!(
        active_block_distance_to_left_wall(&game_state),
        left_wall_distance_before - 1
    );

    // verify the game can be finished
    while !game_state.is_game_over() {
        tick(&mut game_state);
    }
}

#[test]
fn test_preview_block() {
    let mut preview_block = BlockType::T;
    let mut active_block = BlockType::S;

    let mut game_state = default_test_board(SequenceRangeRng::new(&[
        preview_block.number(),
        active_block.number(),
    ]));
    assert!(game_state.active_block().is_none());
    assert_eq!(game_state.preview_block().block_type, preview_block);

    while !game_state.is_game_over() {
        // tick the game at least once after making the last block fall so
        // that the preview block becomes the active block and we get a new
        // preview block
        tick(&mut game_state);

        // Verify the preview and active block have swapped places
        std::mem::swap(&mut preview_block, &mut active_block);
        assert_eq!(game_state.preview_block().block_type, preview_block);
        assert_eq!(
            game_state.active_block().unwrap().0.block_type,
            active_block
        );

        drop_active_block(&mut game_state);
    }
}

#[test]
fn test_score_1_line() {
    let board = [
        vec![false, false, false, false, false, false],
        vec![false, false, false, false, false, false],
        vec![false, false, false, false, false, false],
        vec![false, false, false, false, false, false],
        vec![false, false, false, false, false, false],
        vec![false, false, false, false, false, false],
        vec![false, false, false, false, false, false],
        vec![false, false, false, false, false, false],
        vec![true, false, true, true, true, true],
    ];

    let active_block = Block {
        rot: Rotation::Rot2,
        block_type: BlockType::T,
    };
    let active_block_pos = Vec2 { x: 0, y: 0 };

    let start_score = 120;
    let mut game_state =
        test_board_from_seed(&board, active_block, active_block_pos, start_score, 3);
    assert_eq!(game_state.score(), start_score);

    drop_active_block(&mut game_state);
    assert_eq!(game_state.score(), start_score + 40);
}

#[test]
fn test_score_2_line() {
    let board = [
        vec![false, false, false, false, false, false],
        vec![false, false, false, false, false, false],
        vec![false, false, false, false, false, false],
        vec![false, false, false, false, false, false],
        vec![false, false, false, false, false, false],
        vec![false, false, false, false, false, false],
        vec![false, false, false, false, false, false],
        vec![true, false, true, true, true, true],
        vec![true, false, true, true, true, true],
    ];

    let active_block = Block {
        rot: Rotation::Rot3,
        block_type: BlockType::L,
    };
    let active_block_pos = Vec2 { x: 0, y: 0 };

    let start_score = 120;
    let mut game_state =
        test_board_from_seed(&board, active_block, active_block_pos, start_score, 3);
    assert_eq!(game_state.score(), start_score);

    drop_active_block(&mut game_state);
    assert_eq!(game_state.score(), start_score + 100);
}

#[test]
fn test_score_3_line() {
    let board = [
        vec![false, false, false, false, false, false],
        vec![false, false, false, false, false, false],
        vec![false, false, false, false, false, false],
        vec![false, false, false, false, false, false],
        vec![false, false, false, false, false, false],
        vec![false, false, false, false, false, false],
        vec![true, false, true, true, true, true],
        vec![true, false, true, true, true, true],
        vec![true, false, true, true, true, true],
    ];

    let active_block = Block {
        rot: Rotation::Rot3,
        block_type: BlockType::I,
    };
    let active_block_pos = Vec2 { x: 0, y: 0 };

    let start_score = 120;
    let mut game_state =
        test_board_from_seed(&board, active_block, active_block_pos, start_score, 3);
    assert_eq!(game_state.score(), start_score);

    drop_active_block(&mut game_state);
    assert_eq!(game_state.score(), start_score + 300);
}

#[test]
fn test_score_4_line() {
    let board = [
        vec![false, false, false, false, false, false],
        vec![false, false, false, false, false, false],
        vec![false, false, false, false, false, false],
        vec![false, false, false, false, false, false],
        vec![false, false, false, false, false, false],
        vec![true, false, true, true, true, true],
        vec![true, false, true, true, true, true],
        vec![true, false, true, true, true, true],
        vec![true, false, true, true, true, true],
    ];

    let active_block = Block {
        rot: Rotation::Rot3,
        block_type: BlockType::I,
    };
    let active_block_pos = Vec2 { x: 0, y: 0 };

    let start_score = 120;
    let mut game_state =
        test_board_from_seed(&board, active_block, active_block_pos, start_score, 3);
    assert_eq!(game_state.score(), start_score);

    drop_active_block(&mut game_state);
    assert_eq!(game_state.score(), start_score + 1200);
}

#[test]
fn test_level_calculation_1() {
    let board = [
        vec![false, false, false, false, false, false],
        vec![false, false, false, false, false, false],
        vec![false, false, false, false, false, false],
        vec![false, false, false, false, false, false],
        vec![false, false, false, false, false, false],
        vec![true, false, true, true, true, true],
        vec![true, false, true, true, true, true],
        vec![true, false, true, true, true, true],
        vec![true, false, true, true, true, true],
    ];

    let active_block = Block {
        rot: Rotation::Rot3,
        block_type: BlockType::I,
    };
    let active_block_pos = Vec2 { x: 0, y: 0 };

    let start_score = 160;
    let mut game_state =
        test_board_from_seed(&board, active_block, active_block_pos, start_score, 4);

    let start_level = 1;
    assert_eq!(game_state.score(), start_score);
    assert_eq!(game_state.level(), start_level);

    drop_active_block(&mut game_state);
    assert!(game_state.score() > start_score);
    assert_eq!(game_state.level(), start_level + 1);
}

#[test]
fn test_level_calculation_2() {
    let board = [
        vec![false, false, false, false, false, false],
        vec![false, false, false, false, false, false],
        vec![false, false, false, false, false, false],
        vec![false, false, false, false, false, false],
        vec![false, false, false, false, false, false],
        vec![true, false, true, true, true, true],
        vec![true, false, true, true, true, true],
        vec![true, false, true, true, true, true],
        vec![true, false, true, true, true, true],
    ];

    let active_block = Block {
        rot: Rotation::Rot3,
        block_type: BlockType::I,
    };
    let active_block_pos = Vec2 { x: 0, y: 0 };

    let start_score = 2400 + 40; // 9 lines = 2 tetrises + a single line clear
    let mut game_state =
        test_board_from_seed(&board, active_block, active_block_pos, start_score, 9);

    let start_level = 2;
    assert_eq!(game_state.score(), start_score);
    assert_eq!(game_state.level(), start_level);

    drop_active_block(&mut game_state);
    assert!(game_state.score() > start_score);
    assert_eq!(game_state.level(), start_level + 1);
}
