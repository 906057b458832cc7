use platformer::block::Block;
use platformer::color::{BLUE, RED};
use platformer::playground::{OutOfRange, Playground};

fn two_by_three() -> Playground {
    // Two columns, three rows.
    let schema = vec![
        Block::Wall { color: BLUE },
        Block::Empty,
        Block::Floor { color: RED },
        Block::Wall { color: 7 },
        Block::Empty,
        Block::Floor { color: 9 },
    ];
    Playground::new(schema, 3, 2)
}

#[test]
fn new_keeps_the_sides() {
    let playground = two_by_three();
    assert_eq!(playground.width(), 2);
    assert_eq!(playground.height(), 3);
}

#[test]
fn block_at_reads_row_major() {
    let playground = two_by_three();
    assert_eq!(playground.block_at(0, 0), Ok(Block::Wall { color: BLUE }));
    assert_eq!(playground.block_at(1, 0), Ok(Block::Empty));
    assert_eq!(playground.block_at(0, 1), Ok(Block::Floor { color: RED }));
    assert_eq!(playground.block_at(1, 1), Ok(Block::Wall { color: 7 }));
    assert_eq!(playground.block_at(0, 2), Ok(Block::Empty));
    assert_eq!(playground.block_at(1, 2), Ok(Block::Floor { color: 9 }));
}

#[test]
fn block_at_refuses_a_column_past_the_row() {
    let playground = two_by_three();
    // Row-major index 2 exists, but column 2 does not.
    assert_eq!(playground.block_at(2, 0), Err(OutOfRange { column: 2, row: 0 }));
    assert_eq!(playground.block_at(2, 2), Err(OutOfRange { column: 2, row: 2 }));
}

#[test]
fn block_at_refuses_a_row_past_the_grid() {
    let playground = two_by_three();
    assert_eq!(playground.block_at(0, 3), Err(OutOfRange { column: 0, row: 3 }));
    assert_eq!(
        playground.block_at(usize::MAX, usize::MAX),
        Err(OutOfRange { column: usize::MAX, row: usize::MAX })
    );
}

#[test]
fn block_colour() {
    assert_eq!(Block::Empty.color(), None);
    assert_eq!(Block::Wall { color: BLUE }.color(), Some(BLUE));
    assert_eq!(Block::Floor { color: RED }.color(), Some(RED));
}

#[test]
fn scale_factor_divides_each_side() {
    let playground = two_by_three();
    assert_eq!(playground.scale_factor((800, 600)), (400, 200));
    assert_eq!(playground.scale_factor((2, 3)), (1, 1));
}

#[test]
fn scale_factor_rounds_down() {
    let playground = two_by_three();
    assert_eq!(playground.scale_factor((801, 602)), (400, 200));
    assert_eq!(playground.scale_factor((3, 5)), (1, 1));
    assert_eq!(playground.scale_factor((u32::MAX, u32::MAX)), (u32::MAX / 2, u32::MAX / 3));
}

#[test]
fn scale_factor_is_zero_on_a_surface_smaller_than_the_grid() {
    let playground = two_by_three();
    assert_eq!(playground.scale_factor((1, 2)), (0, 0));
    assert_eq!(playground.scale_factor((0, 0)), (0, 0));
    assert_eq!(playground.scale_factor((1, 3)), (0, 1));
}

#[test]
fn scale_factor_gives_the_same_answer_twice() {
    let playground = two_by_three();
    assert_eq!(playground.scale_factor((641, 479)), playground.scale_factor((641, 479)));
}
