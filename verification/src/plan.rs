//! The sampling planner: which byte ranges of a file the approximate digest reads.
use vstd::prelude::*;

verus! {

/// Size in bytes of one sample block: 1 MiB.
pub const BLOCK_SIZE: u64 = 1048576;

/// Blocks requested per step of distance from the fastest speed level.
pub const BLOCKS_PER_LEVEL: usize = 128;

/// Upper limit on the number of blocks of any plan.
pub const MAX_BLOCKS: u64 = 8192;

/// One byte range of a file chosen for approximate hashing.
///
/// `index` is the block's position in its plan and the only key by which
/// block digests are ordered when they are combined.
#[derive(Clone, Copy, Debug, PartialEq, Eq, Structural)]
pub struct SampleBlock {
    pub index: usize,
    pub offset: u64,
    pub len: usize,
}

/// A speed level brought into the sampling range 2..=9.
pub open spec fn clamp_speed(speed: int) -> int {
    if speed < 2 {
        2
    } else if speed > 9 {
        9
    } else {
        speed
    }
}

/// Blocks that a speed level asks for, before the file's size is considered.
pub open spec fn target_blocks(speed: int) -> int {
    (10 - clamp_speed(speed)) * 128
}

/// Number of blocks needed to cover `file_len` bytes: the length divided by
/// the block size, rounded up.
pub open spec fn blocks_by_size(file_len: int) -> int {
    (file_len + BLOCK_SIZE - 1) / (BLOCK_SIZE as int)
}

/// Number of blocks in the plan for a file of `file_len` bytes at `speed`:
/// none for an empty file, else the target clamped to at least one and at
/// most what the size allows and `MAX_BLOCKS`.
pub open spec fn block_count(file_len: int, speed: int) -> int {
    if file_len <= 0 {
        0
    } else {
        let by_size = blocks_by_size(file_len);
        let cap = if by_size < MAX_BLOCKS { by_size } else { MAX_BLOCKS as int };
        let target = target_blocks(speed);
        if target > cap {
            cap
        } else if target < 1 {
            1
        } else {
            target
        }
    }
}

/// Distance between the starts of neighbouring blocks.
pub open spec fn stride(file_len: int, count: int) -> int {
    if file_len > BLOCK_SIZE && count > 1 {
        (file_len - BLOCK_SIZE) / (count - 1)
    } else {
        0
    }
}

/// Start of block `i`: `i` strides in, pulled back so that a whole block
/// fits before the end of the file, and never before the file's start.
pub open spec fn block_offset(file_len: int, count: int, i: int) -> int {
    let tentative = i * stride(file_len, count);
    if tentative + BLOCK_SIZE > file_len {
        if file_len > BLOCK_SIZE {
            file_len - BLOCK_SIZE
        } else {
            0
        }
    } else {
        tentative
    }
}

/// Length of a block that starts at `offset`: a whole block, or what is left of the file.
pub open spec fn block_len(file_len: int, offset: int) -> int {
    if file_len - offset < BLOCK_SIZE {
        file_len - offset
    } else {
        BLOCK_SIZE as int
    }
}

/// Block `i` of a plan of `count` blocks over `file_len` bytes.
pub open spec fn planned_block(file_len: int, count: int, i: int) -> SampleBlock {
    let offset = block_offset(file_len, count, i);
    SampleBlock { index: i as usize, offset: offset as u64, len: block_len(file_len, offset) as usize }
}

/// The plan for a file of `file_len` bytes at `speed`, in index order.
pub open spec fn plan(file_len: u64, speed: usize) -> Seq<SampleBlock> {
    let count = block_count(file_len as int, speed as int);
    Seq::new(count as nat, |i: int| planned_block(file_len as int, count, i))
}

/// The start of every block but the last lies a whole number of strides in,
/// and the last stride still leaves room for a whole block.
pub proof fn lemma_stride_fits(file_len: int, count: int, i: int)
    requires
        file_len > BLOCK_SIZE,
        count >= 2,
        0 <= i < count,
    ensures
        0 <= i * stride(file_len, count) <= file_len - BLOCK_SIZE,
{
    let room = file_len - BLOCK_SIZE;
    let gaps = count - 1;
    let step = room / gaps;
    assert(step * gaps <= room && step >= 0) by (nonlinear_arith)
        requires
            step == room / gaps,
            gaps >= 1,
            room >= 0,
    ;
    assert(0 <= i * step <= step * gaps) by (nonlinear_arith)
        requires
            0 <= i <= gaps,
            step >= 0,
    ;
}

/// A plan for a non-empty file holds at least one block and at most 1024,
/// never more than the file's size in blocks rounded up; an empty file has
/// an empty plan.
pub proof fn lemma_block_count_bounds(file_len: int, speed: int)
    ensures
        file_len <= 0 ==> block_count(file_len, speed) == 0,
        file_len > 0 ==> 1 <= block_count(file_len, speed) <= 1024,
        file_len > 0 ==> block_count(file_len, speed) <= blocks_by_size(file_len),
        file_len > 0 ==> block_count(file_len, speed) <= target_blocks(speed),
{
}

/// A lower speed level never samples fewer blocks of the same file than a
/// higher one.
pub proof fn lemma_block_count_monotone(file_len: int, slower: int, faster: int)
    requires
        slower <= faster,
    ensures
        block_count(file_len, slower) >= block_count(file_len, faster),
{
}

/// Every planned block lies inside the file and carries its own position
/// as index. All blocks of a plan are equally long: one block, or the whole
/// file where that is shorter. The first block starts at the start of the
/// file.
pub proof fn lemma_block_in_file(file_len: u64, speed: usize, i: int)
    requires
        0 <= i < plan(file_len, speed).len(),
    ensures
        plan(file_len, speed)[i].index == i,
        plan(file_len, speed)[i].len == block_len(file_len as int, 0),
        1 <= plan(file_len, speed)[i].len <= BLOCK_SIZE,
        plan(file_len, speed)[i].offset + plan(file_len, speed)[i].len <= file_len,
        plan(file_len, speed)[0].offset == 0,
{
    let len = file_len as int;
    let count = block_count(len, speed as int);
    if count >= 2 {
        lemma_stride_fits(len, count, i);
        lemma_stride_fits(len, count, 0);
    }
}

/// Number of bytes that the plan for a file reads: the number of its
/// blocks times their length.
pub open spec fn sampled_bytes(file_len: int, speed: int) -> int {
    block_count(file_len, speed) * block_len(file_len, 0)
}

/// A lower speed level never reads fewer bytes of the same file than a
/// higher one.
pub proof fn lemma_sampled_bytes_monotone(file_len: int, slower: int, faster: int)
    requires
        0 <= file_len,
        slower <= faster,
    ensures
        sampled_bytes(file_len, slower) >= sampled_bytes(file_len, faster),
{
    let more = block_count(file_len, slower);
    let fewer = block_count(file_len, faster);
    let each = block_len(file_len, 0);
    lemma_block_count_monotone(file_len, slower, faster);
    assert(more * each >= fewer * each) by (nonlinear_arith)
        requires
            more >= fewer,
            each >= 0,
    ;
}

/// In a plan of two or more blocks the stride is at least one byte and no
/// start is pulled back: block `i` starts exactly `i` strides in.
pub proof fn lemma_offsets_unclipped(file_len: int, speed: int, i: int)
    requires
        block_count(file_len, speed) >= 2,
        0 <= i < block_count(file_len, speed),
    ensures
        stride(file_len, block_count(file_len, speed)) >= 1,
        block_offset(file_len, block_count(file_len, speed), i) == i * stride(
            file_len,
            block_count(file_len, speed),
        ),
{
    let count = block_count(file_len, speed);
    let room = file_len - BLOCK_SIZE;
    let gaps = count - 1;
    assert(gaps <= room);
    assert(room / gaps >= 1) by (nonlinear_arith)
        requires
            1 <= gaps <= room,
    ;
    lemma_stride_fits(file_len, count, i);
}

/// Two different blocks of one plan start at different offsets, the later
/// block at the higher one.
pub proof fn lemma_offsets_increase(file_len: u64, speed: usize, i: int, j: int)
    requires
        0 <= i < j < plan(file_len, speed).len(),
    ensures
        plan(file_len, speed)[i].offset < plan(file_len, speed)[j].offset,
{
    let len = file_len as int;
    let count = block_count(len, speed as int);
    let step = stride(len, count);
    lemma_offsets_unclipped(len, speed as int, i);
    lemma_offsets_unclipped(len, speed as int, j);
    lemma_stride_fits(len, count, i);
    lemma_stride_fits(len, count, j);
    assert(i * step < j * step) by (nonlinear_arith)
        requires
            0 <= i < j,
            step >= 1,
    ;
}

/// The speed level brought into the sampling range.
pub fn clamped(speed: usize) -> (r: usize)
    ensures
        r == clamp_speed(speed as int),
{
    if speed < 2 {
        2
    } else if speed > 9 {
        9
    } else {
        speed
    }
}

/// Number of blocks to sample from a file of `file_len` bytes at `speed`.
pub fn count_blocks(file_len: u64, speed: usize) -> (count: u64)
    ensures
        count == block_count(file_len as int, speed as int),
{
    if file_len == 0 {
        return 0;
    }
    let level: usize = clamped(speed);
    let target: u64 = ((10 - level) * BLOCKS_PER_LEVEL) as u64;
    let whole: u64 = file_len / BLOCK_SIZE;
    let by_size: u64 = if file_len % BLOCK_SIZE == 0 {
        whole
    } else {
        whole + 1
    };
    assert(by_size == blocks_by_size(file_len as int));
    let cap: u64 = if by_size < MAX_BLOCKS {
        by_size
    } else {
        MAX_BLOCKS
    };
    if target > cap {
        cap
    } else if target < 1 {
        1
    } else {
        target
    }
}

/// Plans the blocks to read from a file of `file_len` bytes at `speed`.
///
/// An empty file has an empty plan. Otherwise the plan holds
/// `block_count(file_len, speed)` blocks, evenly strided from the start of
/// the file, each one block long or as long as the file if that is shorter.
pub fn make_sample_offsets(file_len: u64, speed: usize) -> (blocks: Vec<SampleBlock>)
    ensures
        blocks@ == plan(file_len, speed),
{
    let count: u64 = count_blocks(file_len, speed);
    let ghost n = count as int;
    let ghost len = file_len as int;
    let mut blocks: Vec<SampleBlock> = Vec::new();
    if count == 0 {
        assert(blocks@ =~= plan(file_len, speed));
        return blocks;
    }
    if count == 1 {
        let only: u64 = if file_len < BLOCK_SIZE {
            file_len
        } else {
            BLOCK_SIZE
        };
        blocks.push(SampleBlock { index: 0, offset: 0, len: only as usize });
        assert(blocks@ =~= plan(file_len, speed));
        return blocks;
    }
    let step: u64 = if file_len > BLOCK_SIZE {
        (file_len - BLOCK_SIZE) / (count - 1)
    } else {
        0
    };
    let mut i: u64 = 0;
    while i < count
        invariant
            2 <= count <= MAX_BLOCKS,
            n == count,
            len == file_len,
            i <= count,
            step == stride(len, n),
            blocks@.len() == i,
            forall|j: int| 0 <= j < i ==> blocks@[j] == planned_block(len, n, j),
        decreases count - i,
    {
        proof {
            if file_len > BLOCK_SIZE {
                lemma_stride_fits(len, n, i as int);
            } else {
                assert(i * step == 0) by (nonlinear_arith)
                    requires
                        step == 0,
                ;
            }
        }
        let mut pos: u64 = i * step;
        if file_len - pos < BLOCK_SIZE {
            pos = if file_len > BLOCK_SIZE {
                file_len - BLOCK_SIZE
            } else {
                0
            };
        }
        let rest: u64 = file_len - pos;
        let size: u64 = if rest < BLOCK_SIZE {
            rest
        } else {
            BLOCK_SIZE
        };
        blocks.push(SampleBlock { index: i as usize, offset: pos, len: size as usize });
        i = i + 1;
    }
    assert(blocks@ =~= plan(file_len, speed));
    blocks
}

} // verus!
