use oil::block::{power_of_two, Block, BlockError};
use oil::block_meta::{BlockMeta, BLOCK_SIZE, LINE_COUNT, LINE_MARK_START, LINE_SIZE};

fn fresh_meta() -> BlockMeta {
    BlockMeta::new(Block::new(BLOCK_SIZE).expect("a block"))
}

#[test]
fn block_sizes_must_be_powers_of_two() {
    assert!(matches!(Block::new(0), Err(BlockError::BadRequest)));
    assert!(matches!(Block::new(3), Err(BlockError::BadRequest)));
    assert!(matches!(Block::new(96), Err(BlockError::BadRequest)));
    let block = Block::new(4096).expect("a block");
    assert_eq!(block.size, 4096);
    assert_eq!(block.as_ptr().len(), 4096);
    assert!(block.as_ptr().iter().all(|b| *b == 0));
    block.drop();
}

#[test]
fn block_memory_can_be_written() {
    let mut block = Block::new(8).unwrap();
    block.as_mut_ptr()[3] = 7;
    assert_eq!(block.as_ptr()[3], 7);
    assert_eq!(block.as_ptr().len(), 8);
}

#[test]
fn powers_of_two() {
    assert!(!power_of_two(0));
    assert!(power_of_two(1));
    assert!(power_of_two(2));
    assert!(!power_of_two(6));
    assert!(power_of_two(1 << 40));
    assert!(power_of_two(1usize << (usize::BITS - 1)));
    assert!(!power_of_two(usize::MAX));
}

#[test]
fn free_block_gives_the_whole_stretch_below() {
    let meta = fresh_meta();
    assert_eq!(meta.find_next_available_hole(10 * LINE_SIZE, 100), Some((10 * LINE_SIZE, 0)));
    assert_eq!(meta.find_next_available_hole(10 * LINE_SIZE, 10 * LINE_SIZE), Some((10 * LINE_SIZE, 0)));
    assert_eq!(meta.find_next_available_hole(10 * LINE_SIZE, 10 * LINE_SIZE + 1), None);
    assert_eq!(meta.find_next_available_hole(0, 1), None);
    assert_eq!(
        meta.find_next_available_hole(LINE_COUNT * LINE_SIZE, 1),
        Some((LINE_COUNT * LINE_SIZE, 0))
    );
}

#[test]
fn holes_above_marked_lines_keep_a_spare_line() {
    let mut meta = fresh_meta();
    meta.mark_line(5);
    // Lines 6..10 are free above the mark at 5: four lines, one of them kept spare.
    assert_eq!(
        meta.find_next_available_hole(10 * LINE_SIZE, 3 * LINE_SIZE),
        Some((10 * LINE_SIZE, 7 * LINE_SIZE))
    );
    // Four lines are too many for that run; the run below the mark takes them.
    assert_eq!(
        meta.find_next_available_hole(10 * LINE_SIZE, 4 * LINE_SIZE),
        Some((5 * LINE_SIZE, 0))
    );
    assert_eq!(meta.find_next_available_hole(10 * LINE_SIZE, 6 * LINE_SIZE), None);
    meta.reset();
    assert_eq!(
        meta.find_next_available_hole(10 * LINE_SIZE, 6 * LINE_SIZE),
        Some((10 * LINE_SIZE, 0))
    );
}

#[test]
fn adjacent_marks_leave_no_hole_between() {
    let mut meta = fresh_meta();
    meta.mark_line(0);
    meta.mark_line(1);
    meta.mark_line(3);
    assert_eq!(meta.find_next_available_hole(4 * LINE_SIZE, 1), None);
    assert_eq!(meta.find_next_available_hole(8 * LINE_SIZE, 1), Some((8 * LINE_SIZE, 5 * LINE_SIZE)));
}

#[test]
fn a_reset_block_offers_the_whole_stretch_below() {
    let mut meta = fresh_meta();
    meta.mark_line(3);
    meta.mark_line(200);
    meta.reset();
    let start = 10 * LINE_SIZE + 5;
    assert_eq!(meta.find_next_available_hole(start, 10 * LINE_SIZE), Some((10 * LINE_SIZE, 0)));
    assert_eq!(meta.find_next_available_hole(start, 10 * LINE_SIZE + 1), None);
    assert_eq!(meta.find_next_available_hole(LINE_COUNT * LINE_SIZE, 1), Some((LINE_COUNT * LINE_SIZE, 0)));
    assert_eq!(meta.find_next_available_hole(0, 1), None);
}

#[test]
fn line_marks_live_in_the_block_bytes() {
    let mut block = Block::new(BLOCK_SIZE).unwrap();
    block.as_mut_ptr()[7] = 42;
    block.as_mut_ptr()[LINE_MARK_START + 2] = 9;
    let mut meta = BlockMeta::new(block);
    assert_eq!(meta.block().as_ptr()[7], 42);
    assert_eq!(meta.block().as_ptr()[LINE_MARK_START + 2], 0);
    meta.mark_line(3);
    assert_eq!(meta.block().as_ptr()[LINE_MARK_START + 3], 1);
    meta.write(LINE_MARK_START + 8, 5);
    assert_eq!(
        meta.find_next_available_hole(10 * LINE_SIZE, 1),
        Some((8 * LINE_SIZE, 5 * LINE_SIZE))
    );
    assert_eq!(
        meta.find_next_available_hole(12 * LINE_SIZE, 1),
        Some((12 * LINE_SIZE, 10 * LINE_SIZE))
    );
    let block = meta.into_block();
    assert_eq!(block.as_ptr()[LINE_MARK_START + 8], 5);
    assert_eq!(block.as_ptr()[7], 42);
    assert_eq!(block.size, BLOCK_SIZE);
}
