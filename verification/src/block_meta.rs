use vstd::prelude::*;

use crate::block::Block;

verus! {

/// The size of a block, in bytes.
pub const BLOCK_SIZE: usize = 32768;

/// The size of a line, in bytes.
pub const LINE_SIZE: usize = 128;

/// The number of lines of a block.
pub const LINE_COUNT: usize = 256;

/// The bytes of a block that objects can use; the line marks follow them.
pub const BLOCK_CAPACITY: usize = 32512;

/// Where the line marks of a block start.
pub const LINE_MARK_START: usize = 32512;

/// The free run of lines that ends just below line `e`: it starts at `run_start(lines, e)`,
/// just above the nearest marked line below `e` (or at line 0).
pub open spec fn run_start(lines: Seq<u8>, e: int) -> int
    decreases e,
{
    if e <= 0 {
        0
    } else if lines[e - 1] != 0 {
        e
    } else {
        run_start(lines, e - 1)
    }
}

/// Whether a free run can end just below `e`, when the search starts below line `start`:
/// `e` is that line itself or a marked line below it.
pub open spec fn is_run_top(lines: Seq<u8>, start: int, e: int) -> bool {
    e == start || (0 <= e < start && lines[e] != 0)
}

/// Whether the free run that ends just below `e` takes `required` lines. A run above a marked
/// line must hold one line more than asked for, since an object of the marked line may spill
/// into the line above it.
pub open spec fn qualifies(lines: Seq<u8>, e: int, required: int) -> bool {
    let a = run_start(lines, e);
    if a == 0 {
        e >= 1 && e >= required
    } else {
        e - a > required
    }
}

/// The byte limit of the hole that the free run ending just below `e` gives.
pub open spec fn hole_limit(lines: Seq<u8>, e: int) -> int {
    let a = run_start(lines, e);
    if a == 0 {
        0
    } else {
        (a + 1) * LINE_SIZE
    }
}

/// The hole `(cursor, limit)` is the one of the free run ending just below `e`, which takes
/// `required` lines, while no run above it does.
pub open spec fn highest_hole(
    lines: Seq<u8>,
    start: int,
    required: int,
    e: int,
    cursor: int,
    limit: int,
) -> bool {
    &&& is_run_top(lines, start, e)
    &&& qualifies(lines, e, required)
    &&& cursor == e * LINE_SIZE
    &&& limit == hole_limit(lines, e)
    &&& forall|f: int|
        #![trigger is_run_top(lines, start, f)]
        e < f && is_run_top(lines, start, f) ==> !qualifies(lines, f, required)
}

/// The number of lines that `size` bytes take.
pub open spec fn lines_for(size: int) -> int {
    (size + LINE_SIZE - 1) / (LINE_SIZE as int)
}

/// The line marks of a block: the last `LINE_COUNT` bytes of its memory, one per line. A line
/// with a nonzero mark is in use.
pub struct BlockMeta {
    block: Block,
}

impl BlockMeta {
    /// The block is of `BLOCK_SIZE` bytes, so its marks follow the bytes that objects use.
    pub closed spec fn wf(&self) -> bool {
        &&& self.block.block_size() == BLOCK_SIZE
        &&& self.block.contents().len() == BLOCK_SIZE
    }

    /// The bytes of the block, its marks among them.
    pub closed spec fn bytes(&self) -> Seq<u8> {
        self.block.contents()
    }

    /// The line marks: the bytes from `LINE_MARK_START` on.
    pub open spec fn marks(&self) -> Seq<u8> {
        self.bytes().subrange(LINE_MARK_START as int, BLOCK_SIZE as int)
    }

    /// Reads and keeps the marks of `block`, and clears them: every line is free. The bytes
    /// that objects use are left as they are.
    pub fn new(block: Block) -> (r: BlockMeta)
        requires
            block.block_size() == BLOCK_SIZE,
            block.contents().len() == BLOCK_SIZE,
        ensures
            r.wf(),
            r.bytes().subrange(0, LINE_MARK_START as int) == block.contents().subrange(
                0,
                LINE_MARK_START as int,
            ),
            r.marks() == Seq::new(LINE_COUNT as nat, |i: int| 0u8),
    {
        let mut meta = BlockMeta { block };
        meta.reset();
        meta
    }

    /// The block whose marks these are.
    pub fn block(&self) -> (r: &Block)
        ensures
            r.contents() == self.bytes(),
            self.wf() ==> r.block_size() == BLOCK_SIZE,
    {
        &self.block
    }

    /// Gives the block back, marks and all.
    pub fn into_block(self) -> (r: Block)
        ensures
            r.contents() == self.bytes(),
            self.wf() ==> r.block_size() == BLOCK_SIZE,
    {
        self.block
    }

    /// Writes `value` at `offset` of the block, as an object's bytes are written.
    pub fn write(&mut self, offset: usize, value: u8)
        requires
            old(self).wf(),
            offset < BLOCK_SIZE,
        ensures
            final(self).wf(),
            final(self).bytes() == old(self).bytes().update(offset as int, value),
    {
        let bytes = self.block.as_mut_ptr();
        bytes[offset] = value;
    }

    /// Marks line `index` as in use.
    pub fn mark_line(&mut self, index: usize)
        requires
            old(self).wf(),
            index < LINE_COUNT,
        ensures
            final(self).wf(),
            final(self).bytes() == old(self).bytes().update(LINE_MARK_START + index, 1u8),
            final(self).marks() == old(self).marks().update(index as int, 1u8),
    {
        self.write(LINE_MARK_START + index, 1);
        assert(self.marks() =~= old(self).marks().update(index as int, 1u8));
    }

    /// Clears every line mark; the other bytes of the block stay as they are.
    pub fn reset(&mut self)
        requires
            old(self).wf(),
        ensures
            final(self).wf(),
            final(self).bytes().subrange(0, LINE_MARK_START as int) == old(self).bytes().subrange(
                0,
                LINE_MARK_START as int,
            ),
            final(self).marks() == Seq::new(LINE_COUNT as nat, |i: int| 0u8),
    {
        let mut i: usize = 0;
        while i < LINE_COUNT
            invariant
                self.wf(),
                old(self).wf(),
                i <= LINE_COUNT,
                self.bytes().subrange(0, LINE_MARK_START as int) == old(self).bytes().subrange(
                    0,
                    LINE_MARK_START as int,
                ),
                forall|j: int| 0 <= j < i ==> #[trigger] self.bytes()[LINE_MARK_START + j] == 0u8,
            decreases LINE_COUNT - i,
        {
            let ghost before = self.bytes();
            self.write(LINE_MARK_START + i, 0);
            assert(self.bytes().subrange(0, LINE_MARK_START as int) =~= before.subrange(
                0,
                LINE_MARK_START as int,
            ));
            assert forall|j: int| 0 <= j < i + 1 implies #[trigger] self.bytes()[LINE_MARK_START
                + j] == 0u8 by {
                if j < i {
                    assert(self.bytes()[LINE_MARK_START + j] == before[LINE_MARK_START + j]);
                }
            }
            i += 1;
        }
        assert forall|j: int| 0 <= j < LINE_COUNT implies #[trigger] self.marks()[j] == 0u8 by {
            assert(self.bytes()[LINE_MARK_START + j] == 0u8);
        }
        assert(self.marks() =~= Seq::new(LINE_COUNT as nat, |i: int| 0u8));
    }

    /// Finds a hole for `alloc_size` bytes below `starting_at`: the highest free run of lines
    /// that can take them. The result is the byte offset of the hole's top (where allocation
    /// starts, bumping down) and of its bottom.
    pub fn find_next_available_hole(&self, starting_at: usize, alloc_size: usize) -> (r: Option<
        (usize, usize),
    >)
        requires
            self.wf(),
            starting_at / LINE_SIZE <= LINE_COUNT,
            alloc_size <= usize::MAX - LINE_SIZE,
        ensures
            r is Some ==> exists|e: int|
                #[trigger] highest_hole(
                    self.marks(),
                    (starting_at / LINE_SIZE) as int,
                    lines_for(alloc_size as int),
                    e,
                    (r->0).0 as int,
                    (r->0).1 as int,
                ),
            r is None ==> forall|e: int|
                #![trigger is_run_top(self.marks(), (starting_at / LINE_SIZE) as int, e)]
                is_run_top(self.marks(), (starting_at / LINE_SIZE) as int, e) ==> !qualifies(
                    self.marks(),
                    e,
                    lines_for(alloc_size as int),
                ),
    {
        let bytes = self.block.as_ptr();
        let ghost lines = self.marks();
        let mut count: usize = 0;
        let starting_line = starting_at / LINE_SIZE;
        let lines_required = (alloc_size + LINE_SIZE - 1) / LINE_SIZE;
        let mut end = starting_line;
        let mut index = starting_line;
        while index > 0
            invariant
                lines == bytes@.subrange(LINE_MARK_START as int, BLOCK_SIZE as int),
                lines == self.marks(),
                bytes@.len() == BLOCK_SIZE,
                lines.len() == LINE_COUNT,
                starting_line == starting_at / LINE_SIZE,
                starting_line <= lines.len(),
                lines_required == lines_for(alloc_size as int),
                index <= end <= starting_line,
                count == end - index,
                index == 0 && end > 0 ==> count < lines_required,
                is_run_top(lines, starting_line as int, end as int),
                forall|j: int| index <= j < end ==> lines[j] == 0u8,
                forall|f: int|
                    #![trigger is_run_top(lines, starting_line as int, f)]
                    end < f && is_run_top(lines, starting_line as int, f) ==> !qualifies(
                        lines,
                        f,
                        lines_required as int,
                    ),
            decreases index,
        {
            index -= 1;
            let marked = bytes[LINE_MARK_START + index];
            assert(marked == lines[index as int]);
            if marked == 0 {
                count += 1;
                if index == 0 && count >= lines_required {
                    proof {
                        lemma_run_start_free(lines, 0, end as int);
                        assert(is_run_top(lines, starting_line as int, end as int));
                        assert(qualifies(lines, end as int, lines_required as int));
                    }
                    let limit = index * LINE_SIZE;
                    let cursor = end * LINE_SIZE;
                    proof {
                        lemma_hole_found(self.marks(), starting_at, alloc_size, end as int, cursor, limit);
                    }
                    return Some((cursor, limit));
                }
            } else {
                proof {
                    lemma_run_start_free(lines, index + 1, end as int);
                }
                if count > lines_required {
                    assert(is_run_top(lines, starting_line as int, end as int));
                    assert(qualifies(lines, end as int, lines_required as int));
                    let limit = (index + 2) * LINE_SIZE;
                    let cursor = end * LINE_SIZE;
                    proof {
                        lemma_hole_found(self.marks(), starting_at, alloc_size, end as int, cursor, limit);
                    }
                    return Some((cursor, limit));
                }
                count = 0;
                end = index;
            }
        }
        proof {
            lemma_run_start_free(lines, 0, end as int);
            assert forall|e: int|
                #![trigger is_run_top(lines, starting_line as int, e)]
                is_run_top(lines, starting_line as int, e) implies !qualifies(
                lines,
                e,
                lines_required as int,
            ) by {
                if e < end {
                    assert(lines[e] == 0u8);
                }
            }
        }
        None
    }
}

proof fn lemma_hole_found(
    lines: Seq<u8>,
    starting_at: usize,
    alloc_size: usize,
    end: int,
    cursor: usize,
    limit: usize,
)
    requires
        highest_hole(
            lines,
            (starting_at / LINE_SIZE) as int,
            lines_for(alloc_size as int),
            end,
            cursor as int,
            limit as int,
        ),
    ensures
        ({
            let r = Some((cursor, limit));
            exists|e: int|
                #[trigger] highest_hole(
                    lines,
                    (starting_at / LINE_SIZE) as int,
                    lines_for(alloc_size as int),
                    e,
                    (r->0).0 as int,
                    (r->0).1 as int,
                )
        }),
{
    let r = Some((cursor, limit));
    assert(r->0 == (cursor, limit));
    assert((r->0).0 == cursor);
    assert(highest_hole(
        lines,
        (starting_at / LINE_SIZE) as int,
        lines_for(alloc_size as int),
        end,
        (r->0).0 as int,
        (r->0).1 as int,
    ));
}

/// Over a free stretch of lines `[a, e)` that sits on a marked line (or on line 0), the free
/// run ending at `e` starts at `a`.
proof fn lemma_run_start_free(lines: Seq<u8>, a: int, e: int)
    requires
        0 <= a <= e <= lines.len(),
        forall|j: int| a <= j < e ==> lines[j] == 0u8,
        a == 0 || lines[a - 1] != 0,
    ensures
        run_start(lines, e) == a,
    decreases e - a,
{
    if e > a {
        lemma_run_start_free(lines, a, e - 1);
    }
}

} // verus!

verus! {

/// In a block whose lines are all free, the only run below line `start` is the whole stretch
/// `[0, start)`: a request finds the hole `(start * LINE_SIZE, 0)` exactly when it takes no
/// more than `start` lines (and `start` is not 0).
pub proof fn lemma_free_block_hole(lines: Seq<u8>, start: int, required: int)
    requires
        0 <= start <= lines.len(),
        forall|i: int| 0 <= i < lines.len() ==> lines[i] == 0u8,
    ensures
        forall|e: int| #[trigger] is_run_top(lines, start, e) <==> e == start,
        qualifies(lines, start, required) <==> (start >= 1 && start >= required),
        hole_limit(lines, start) == 0,
{
    lemma_run_start_free(lines, 0, start);
}

} // verus!

verus! {

/// On the marks of a new or reset block, the search below `starting_at` finds the whole
/// stretch of lines below it, `(line * LINE_SIZE, 0)` for the line `starting_at` falls in,
/// exactly when the request takes no more lines than lie below that line (and at least one
/// line lies there); otherwise it finds nothing.
pub proof fn lemma_reset_block_hole(starting_at: usize, alloc_size: usize)
    requires
        starting_at / LINE_SIZE <= LINE_COUNT,
    ensures
        ({
            let lines = Seq::new(LINE_COUNT as nat, |i: int| 0u8);
            let start = (starting_at / LINE_SIZE) as int;
            let required = lines_for(alloc_size as int);
            let fits = start >= 1 && start >= required;
            &&& forall|e: int, cursor: int, limit: int|
                #[trigger] highest_hole(lines, start, required, e, cursor, limit) <==> (fits && e
                    == start && cursor == start * LINE_SIZE && limit == 0)
            &&& (forall|e: int|
                #![trigger is_run_top(lines, start, e)]
                is_run_top(lines, start, e) ==> !qualifies(lines, e, required)) <==> !fits
        }),
{
    let lines = Seq::new(LINE_COUNT as nat, |i: int| 0u8);
    let start = (starting_at / LINE_SIZE) as int;
    let required = lines_for(alloc_size as int);
    lemma_free_block_hole(lines, start, required);
    assert(is_run_top(lines, start, start));
}

} // verus!
