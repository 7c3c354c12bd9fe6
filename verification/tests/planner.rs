use fastmd5::plan::{clamped, count_blocks, make_sample_offsets, SampleBlock, BLOCK_SIZE};

const MIB: u64 = 1 << 20;

#[test]
fn clamps_speed_into_sampling_range() {
    assert_eq!(clamped(0), 2);
    assert_eq!(clamped(1), 2);
    assert_eq!(clamped(2), 2);
    assert_eq!(clamped(5), 5);
    assert_eq!(clamped(9), 9);
    assert_eq!(clamped(10), 9);
    assert_eq!(clamped(usize::MAX), 9);
}

#[test]
fn block_size_is_one_mebibyte() {
    assert_eq!(BLOCK_SIZE, 1_048_576);
}

#[test]
fn empty_file_has_empty_plan() {
    for speed in 0..12 {
        assert_eq!(make_sample_offsets(0, speed), vec![]);
        assert_eq!(count_blocks(0, speed), 0);
    }
}

#[test]
fn file_of_one_byte_is_one_short_block() {
    assert_eq!(make_sample_offsets(1, 2), vec![SampleBlock { index: 0, offset: 0, len: 1 }]);
    assert_eq!(make_sample_offsets(1, 9), vec![SampleBlock { index: 0, offset: 0, len: 1 }]);
}

#[test]
fn file_below_one_block_is_read_whole() {
    assert_eq!(
        make_sample_offsets(MIB - 1, 5),
        vec![SampleBlock { index: 0, offset: 0, len: 1_048_575 }]
    );
}

#[test]
fn file_of_exactly_one_block_is_one_full_block() {
    assert_eq!(
        make_sample_offsets(MIB, 5),
        vec![SampleBlock { index: 0, offset: 0, len: 1_048_576 }]
    );
}

#[test]
fn one_byte_over_a_block_gives_two_overlapping_blocks() {
    assert_eq!(
        make_sample_offsets(MIB + 1, 9),
        vec![
            SampleBlock { index: 0, offset: 0, len: 1_048_576 },
            SampleBlock { index: 1, offset: 1, len: 1_048_576 },
        ]
    );
}

#[test]
fn two_blocks_worth_splits_in_two() {
    assert_eq!(
        make_sample_offsets(2 * MIB, 7),
        vec![
            SampleBlock { index: 0, offset: 0, len: 1_048_576 },
            SampleBlock { index: 1, offset: 1_048_576, len: 1_048_576 },
        ]
    );
}

#[test]
fn small_file_is_limited_by_its_size() {
    let blocks = make_sample_offsets(5 * MIB + 123, 2);
    let offsets: Vec<u64> = blocks.iter().map(|b| b.offset).collect();
    assert_eq!(offsets, vec![0, 838_885, 1_677_770, 2_516_655, 3_355_540, 4_194_425]);
    for (i, block) in blocks.iter().enumerate() {
        assert_eq!(block.index, i);
        assert_eq!(block.len, 1_048_576);
    }
}

#[test]
fn block_count_follows_speed_on_a_large_file() {
    let gib: u64 = 1 << 30;
    assert_eq!(count_blocks(gib, 2), 1024);
    assert_eq!(count_blocks(gib, 3), 896);
    assert_eq!(count_blocks(gib, 4), 768);
    assert_eq!(count_blocks(gib, 5), 640);
    assert_eq!(count_blocks(gib, 6), 512);
    assert_eq!(count_blocks(gib, 7), 384);
    assert_eq!(count_blocks(gib, 8), 256);
    assert_eq!(count_blocks(gib, 9), 128);
}

#[test]
fn speeds_outside_the_sampling_range_plan_like_the_nearest() {
    let gib: u64 = 1 << 30;
    assert_eq!(make_sample_offsets(gib, 0), make_sample_offsets(gib, 2));
    assert_eq!(make_sample_offsets(gib, 1), make_sample_offsets(gib, 2));
    assert_eq!(make_sample_offsets(gib, 10), make_sample_offsets(gib, 9));
    assert_eq!(make_sample_offsets(gib, 1000), make_sample_offsets(gib, 9));
}

#[test]
fn strides_of_a_gibibyte_at_speed_nine() {
    let blocks = make_sample_offsets(1 << 30, 9);
    assert_eq!(blocks.len(), 128);
    assert_eq!(blocks[0], SampleBlock { index: 0, offset: 0, len: 1_048_576 });
    assert_eq!(blocks[1], SampleBlock { index: 1, offset: 8_446_403, len: 1_048_576 });
    assert_eq!(blocks[2], SampleBlock { index: 2, offset: 16_892_806, len: 1_048_576 });
    assert_eq!(blocks[127], SampleBlock { index: 127, offset: 1_072_693_181, len: 1_048_576 });
}

#[test]
fn strides_of_a_gibibyte_at_speed_five() {
    let blocks = make_sample_offsets(1 << 30, 5);
    assert_eq!(blocks.len(), 640);
    assert_eq!(blocks[1].offset, 1_678_706);
    assert_eq!(blocks[639].offset, 1_072_693_134);
}

#[test]
fn gibibyte_at_speed_two_is_covered_block_by_block() {
    let blocks = make_sample_offsets(1 << 30, 2);
    assert_eq!(blocks.len(), 1024);
    for (i, block) in blocks.iter().enumerate() {
        assert_eq!(block.offset, i as u64 * MIB);
        assert_eq!(block.len, 1_048_576);
    }
}

#[test]
fn largest_file_length_is_planned_without_overflow() {
    let blocks = make_sample_offsets(u64::MAX, 2);
    assert_eq!(blocks.len(), 1024);
    assert_eq!(blocks[1].offset, 18_032_007_892_188_175);
    assert_eq!(blocks[1023].offset, 18_446_744_073_708_503_025);
    assert_eq!(blocks[1023].len, 1_048_576);
    let fast = make_sample_offsets(u64::MAX, 9);
    assert_eq!(fast.len(), 128);
    assert_eq!(fast[127].offset, 18_446_744_073_708_502_975);
}

#[test]
fn every_block_lies_inside_its_file() {
    for file_len in [1u64, 1000, MIB - 1, MIB, MIB + 1, 3 * MIB + 17, 200 * MIB + 5, 1 << 32] {
        for speed in 0..11 {
            let blocks = make_sample_offsets(file_len, speed);
            assert!(!blocks.is_empty());
            assert_eq!(blocks.len() as u64, count_blocks(file_len, speed));
            assert_eq!(blocks[0].offset, 0);
            for (i, block) in blocks.iter().enumerate() {
                assert_eq!(block.index, i);
                assert!(block.len >= 1);
                assert!(block.len as u64 <= BLOCK_SIZE);
                assert!(block.offset + block.len as u64 <= file_len);
            }
        }
    }
}

#[test]
fn later_blocks_start_further_in() {
    for file_len in [MIB + 1, 2 * MIB, 3 * MIB + 17, 200 * MIB + 5, 1 << 32] {
        for speed in 2..10 {
            let blocks = make_sample_offsets(file_len, speed);
            for pair in blocks.windows(2) {
                assert!(pair[0].offset < pair[1].offset);
            }
        }
    }
}

#[test]
fn slower_speeds_never_sample_fewer_blocks() {
    for file_len in [1u64, MIB, 5 * MIB, 300 * MIB, 1 << 30, 1 << 40] {
        for speed in 0..11 {
            assert!(count_blocks(file_len, speed) >= count_blocks(file_len, speed + 1));
        }
    }
}
