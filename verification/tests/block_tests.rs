use tetrust::block::{Block, BlockType, Rotation};
use tetrust::util::{Rect, Vec2};

#[test]
fn test_shape_numbers() {
    assert_eq!(BlockType::I.number(), 1);
    assert_eq!(BlockType::O.number(), 2);
    assert_eq!(BlockType::T.number(), 3);
    assert_eq!(BlockType::S.number(), 4);
    assert_eq!(BlockType::Z.number(), 5);
    assert_eq!(BlockType::J.number(), 6);
    assert_eq!(BlockType::L.number(), 7);
}

#[test]
fn test_sprite_chars() {
    assert_eq!(BlockType::I.sprite_char(), 'O');
    assert_eq!(BlockType::O.sprite_char(), 'X');
    assert_eq!(BlockType::T.sprite_char(), '+');
    assert_eq!(BlockType::S.sprite_char(), '>');
    assert_eq!(BlockType::Z.sprite_char(), '<');
    assert_eq!(BlockType::J.sprite_char(), '/');
    assert_eq!(BlockType::L.sprite_char(), '\\');
    let block = Block {
        rot: Rotation::Rot1,
        block_type: BlockType::Z,
    };
    assert_eq!(block.sprite_char(), '<');
}

#[test]
fn test_i_cells_per_rotation() {
    let horizontal = Block {
        rot: Rotation::Rot0,
        block_type: BlockType::I,
    };
    assert_eq!(
        horizontal.cells(),
        [
            Vec2 { x: 0, y: 1 },
            Vec2 { x: 1, y: 1 },
            Vec2 { x: 2, y: 1 },
            Vec2 { x: 3, y: 1 },
        ]
    );
    assert_eq!(horizontal.left(), 0);
    assert_eq!(horizontal.top(), 1);
    assert_eq!(horizontal.width(), 4);
    assert_eq!(horizontal.height(), 1);

    let vertical = Block {
        rot: Rotation::Rot1,
        block_type: BlockType::I,
    };
    assert_eq!(
        vertical.cells(),
        [
            Vec2 { x: 2, y: 0 },
            Vec2 { x: 2, y: 1 },
            Vec2 { x: 2, y: 2 },
            Vec2 { x: 2, y: 3 },
        ]
    );
    assert_eq!(vertical.left(), 2);
    assert_eq!(vertical.top(), 0);
    assert_eq!(vertical.width(), 1);
    assert_eq!(vertical.height(), 4);
}

#[test]
fn test_t_bounding_box_changes_with_rotation() {
    let spun = Block {
        rot: Rotation::Rot1,
        block_type: BlockType::T,
    };
    assert_eq!(spun.left(), 1);
    assert_eq!(spun.top(), 0);
    assert_eq!(spun.width(), 2);
    assert_eq!(spun.height(), 3);
}

#[test]
fn test_rotation_cycles() {
    let block = Block {
        rot: Rotation::Rot0,
        block_type: BlockType::J,
    };
    let spun_right = block.rotate(1);
    assert_eq!(spun_right.rot, Rotation::Rot1);
    assert_eq!(spun_right.block_type, BlockType::J);
    let spun_left = block.rotate(-1);
    assert_eq!(spun_left.rot, Rotation::Rot3);
    let unchanged = block.rotate(0);
    assert_eq!(unchanged.rot, Rotation::Rot0);
    // a full turn comes back around
    assert_eq!(block.rotate(1).rotate(1).rotate(1).rotate(1).rot, block.rot);
}

#[test]
fn test_o_cells_ignore_rotation() {
    let expected = [
        Vec2 { x: 1, y: 0 },
        Vec2 { x: 2, y: 0 },
        Vec2 { x: 1, y: 1 },
        Vec2 { x: 2, y: 1 },
    ];
    for rot in [
        Rotation::Rot0,
        Rotation::Rot1,
        Rotation::Rot2,
        Rotation::Rot3,
    ] {
        let block = Block {
            rot,
            block_type: BlockType::O,
        };
        assert_eq!(block.cells(), expected);
    }
}

#[test]
fn test_kick_attempts_start_in_place() {
    let kicks = Rotation::Rot0.get_kick_attempts(BlockType::T, Rotation::Rot1);
    assert_eq!(kicks[0], Vec2 { x: 0, y: 0 });
    assert_eq!(
        kicks,
        [
            Vec2 { x: 0, y: 0 },
            Vec2 { x: -1, y: 0 },
            Vec2 { x: -1, y: 1 },
            Vec2 { x: 0, y: -2 },
            Vec2 { x: -1, y: -2 },
        ]
    );
    let wide_kicks = Rotation::Rot1.get_kick_attempts(BlockType::I, Rotation::Rot2);
    assert_eq!(
        wide_kicks,
        [
            Vec2 { x: 0, y: 0 },
            Vec2 { x: -1, y: 0 },
            Vec2 { x: 2, y: 0 },
            Vec2 { x: -1, y: 2 },
            Vec2 { x: 2, y: -1 },
        ]
    );
}

#[test]
fn test_rect_queries() {
    let rect = Rect {
        left: 3,
        top: -2,
        width: 10,
        height: 5,
    };
    assert_eq!(rect.right(), 12);
    assert_eq!(rect.bottom(), 2);
    assert_eq!(rect.center_x(), 8);
    assert_eq!(rect.center_y(), 0);
}

#[test]
fn test_vec2_zero() {
    assert_eq!(Vec2::zero(), Vec2 { x: 0, y: 0 });
}
