//! Grouping a time-ordered stream of blocks into batches, one per calendar
//! day that has blocks.

use crate::date::{no_earlier_day_after, timestamp_to_naive_date, utc_date, CalendarDate};
use crate::ledger::Block;
use vstd::prelude::*;

verus! {

/// The UTC calendar date that a block's timestamp falls on.
pub open spec fn block_date(block: Block) -> CalendarDate {
    utc_date(block.time)
}

/// Whether `block` closes the group `pending`: the group has a block, and
/// `block` falls on a later day than the group's first block.
pub open spec fn starts_new_day(pending: Seq<Block>, block: Block) -> bool {
    pending.len() > 0 && block_date(pending[0]).earlier_than(block_date(block))
}

/// The day batches of a stream: blocks are taken in order, and a block opens
/// a new batch exactly when it falls on a later day than the first block of
/// the batch before it.
pub open spec fn day_batches(blocks: Seq<Block>) -> Seq<Seq<Block>>
    decreases blocks.len(),
{
    if blocks.len() == 0 {
        Seq::empty()
    } else {
        let earlier = day_batches(blocks.drop_last());
        let block = blocks.last();
        if earlier.len() == 0 || starts_new_day(earlier.last(), block) {
            earlier.push(seq![block])
        } else {
            earlier.drop_last().push(earlier.last().push(block))
        }
    }
}

/// The blocks of each batch, batch by batch.
pub open spec fn batches_view(batches: Seq<Vec<Block>>) -> Seq<Seq<Block>> {
    Seq::new(batches.len(), |i: int| batches[i]@)
}

/// Groups blocks by day as they are pulled from a source, one at a time. It
/// holds the group under construction, whose first block is the one that was
/// carried over from the day before.
pub struct DayGrouper {
    blocks: Vec<Block>,
}

impl DayGrouper {
    /// The blocks taken so far that no batch has handed out yet.
    pub closed spec fn pending(&self) -> Seq<Block> {
        self.blocks@
    }

    /// A grouper that holds no block.
    pub fn new() -> (grouper: Self)
        ensures
            grouper.pending() == Seq::<Block>::empty(),
    {
        DayGrouper { blocks: Vec::new() }
    }

    /// Takes the next block of the stream. A block of a later day than the
    /// group's first block closes the group: the group is handed out and the
    /// block is kept as the first of the next one. Any other block joins the
    /// group. No block with a later timestamp falls on an earlier day than
    /// the block taken.
    pub fn push(&mut self, block: Block) -> (batch: Option<Vec<Block>>)
        ensures
            starts_new_day(old(self).pending(), block) ==> final(self).pending() == seq![block]
                && batch.is_some() && batch.unwrap()@ == old(self).pending(),
            !starts_new_day(old(self).pending(), block) ==> final(self).pending() == old(self).pending().push(block) && batch.is_none(),
            no_earlier_day_after(block.time, block_date(block)),
    {
        let date = timestamp_to_naive_date(block.time);
        if self.blocks.len() > 0 {
            let group_date = timestamp_to_naive_date(self.blocks[0].time);
            if group_date.is_before(&date) {
                let mut batch: Vec<Block> = Vec::new();
                core::mem::swap(&mut self.blocks, &mut batch);
                self.blocks.push(block);
                assert(self.blocks@ == seq![block]);
                return Some(batch);
            }
        }
        self.blocks.push(block);
        None
    }

    /// Tells the grouper that the stream has ended: hands out the group under
    /// construction, or `None` where it holds no block, and leaves the grouper
    /// empty.
    pub fn finish(&mut self) -> (batch: Option<Vec<Block>>)
        ensures
            final(self).pending() == Seq::<Block>::empty(),
            old(self).pending().len() == 0 ==> batch.is_none(),
            old(self).pending().len() > 0 ==> batch.is_some() && batch.unwrap()@ == old(self).pending(),
    {
        if self.blocks.len() == 0 {
            assert(self.blocks@ == Seq::<Block>::empty());
            return None;
        }
        let mut batch: Vec<Block> = Vec::new();
        core::mem::swap(&mut self.blocks, &mut batch);
        assert(self.blocks@ == Seq::<Block>::empty());
        Some(batch)
    }
}

/// A grouper for a fresh stream.
pub fn create_group_blocks_by_day_closure() -> (grouper: DayGrouper)
    ensures
        grouper.pending() == Seq::<Block>::empty(),
{
    DayGrouper::new()
}

/// The date of a batch: the date of its first block.
pub fn batch_date(blocks: &Vec<Block>) -> (date: Option<CalendarDate>)
    ensures
        date == if blocks@.len() > 0 {
            Some(block_date(blocks@[0]))
        } else {
            None
        },
{
    if blocks.len() > 0 {
        Some(timestamp_to_naive_date(blocks[0].time))
    } else {
        None
    }
}

/// The batches handed out so far, followed by the group under construction
/// where it holds a block.
spec fn batches_with_pending(out: Seq<Vec<Block>>, pending: Seq<Block>) -> Seq<Seq<Block>> {
    if pending.len() == 0 {
        batches_view(out)
    } else {
        batches_view(out).push(pending)
    }
}

/// Whether no block has a smaller timestamp than a block before it.
pub open spec fn ascending(blocks: Seq<Block>) -> bool {
    forall|i: int, j: int|
        0 <= i <= j < blocks.len() ==> (#[trigger] blocks[i]).time <= (#[trigger] blocks[j]).time
}

/// Groups a whole stream of blocks into its day batches, in order. In a
/// stream with ascending timestamps all blocks of a batch fall on one day.
pub fn group_blocks_by_day(blocks: Vec<Block>) -> (batches: Vec<Vec<Block>>)
    ensures
        batches_view(batches@) == day_batches(blocks@),
        ascending(blocks@) ==> forall|k: int, i: int|
            0 <= k < day_batches(blocks@).len() && 0 <= i < day_batches(blocks@)[k].len()
                ==> block_date(#[trigger] day_batches(blocks@)[k][i]) == block_date(
                day_batches(blocks@)[k][0],
            ),
{
    let mut grouper = DayGrouper::new();
    let mut out: Vec<Vec<Block>> = Vec::new();
    let ghost stream = blocks@;
    for block in iter: blocks
        invariant
            iter.seq() == stream,
            batches_with_pending(out@, grouper.pending()) == day_batches(
                stream.take(iter.index() as int),
            ),
            grouper.pending().len() == 0 ==> iter.index() == 0 && out@.len() == 0,
            forall|k: int|
                0 <= k < iter.index() ==> no_earlier_day_after(
                    (#[trigger] stream[k]).time,
                    block_date(stream[k]),
                ),
    {
        let ghost done = stream.take(iter.index() as int);
        let ghost next = stream.take(iter.index() + 1);
        let ghost before = out@;
        let ghost pending = grouper.pending();
        assert(next.drop_last() == done);
        assert(next.last() == block);
        if let Some(batch) = grouper.push(block) {
            out.push(batch);
            assert(batches_view(out@) == batches_view(before).push(pending));
        }
        proof {
            let earlier = day_batches(done);
            if pending.len() == 0 {
                assert(pending.push(block) =~= seq![block]);
                assert(earlier =~= Seq::<Seq<Block>>::empty());
                assert(batches_with_pending(out@, grouper.pending()) =~= earlier.push(
                    seq![block],
                ));
            } else if starts_new_day(pending, block) {
                assert(earlier.last() == pending);
                assert(batches_with_pending(out@, grouper.pending()) =~= earlier.push(
                    seq![block],
                ));
            } else {
                assert(earlier.last() == pending);
                assert(earlier.drop_last() =~= batches_view(before));
                assert(batches_with_pending(out@, grouper.pending())
                    =~= earlier.drop_last().push(pending.push(block)));
            }
        }
    }
    assert(stream.take(stream.len() as int) == stream);
    proof {
        if ascending(stream) {
            assert forall|i: int, j: int| 0 <= i <= j < stream.len() implies !block_date(
                #[trigger] stream[j],
            ).earlier_than(block_date(#[trigger] stream[i])) by {
                assert(no_earlier_day_after(stream[i].time, block_date(stream[i])));
                assert(stream[i].time <= stream[j].time);
                assert(!utc_date(stream[j].time).earlier_than(block_date(stream[i])));
            }
            lemma_batches_share_one_date(stream);
        }
    }
    let ghost before = out@;
    let ghost pending = grouper.pending();
    if let Some(batch) = grouper.finish() {
        out.push(batch);
        assert(batches_view(out@) == batches_view(before).push(pending));
    }
    out
}

/// Every batch holds a block, and the batches, joined in order, are the
/// stream itself: each block of the stream lies in exactly one batch, at its
/// place.
pub proof fn lemma_batches_partition_stream(blocks: Seq<Block>)
    ensures
        day_batches(blocks).flatten() == blocks,
        forall|k: int|
            0 <= k < day_batches(blocks).len() ==> (#[trigger] day_batches(blocks)[k]).len() > 0,
    decreases blocks.len(),
{
    if blocks.len() == 0 {
        assert(day_batches(blocks).flatten() =~= blocks);
    } else {
        let earlier = day_batches(blocks.drop_last());
        let block = blocks.last();
        lemma_batches_partition_stream(blocks.drop_last());
        assert(blocks =~= blocks.drop_last().push(block));
        if earlier.len() == 0 || starts_new_day(earlier.last(), block) {
            earlier.lemma_flatten_push(seq![block]);
            assert(earlier.flatten() + seq![block] =~= blocks);
        } else {
            let open_batch = earlier.last();
            let closed = earlier.drop_last();
            assert(earlier =~= closed.push(open_batch));
            closed.lemma_flatten_push(open_batch);
            closed.lemma_flatten_push(open_batch.push(block));
            assert(closed.flatten() + open_batch.push(block) =~= (closed.flatten()
                + open_batch).push(block));
        }
    }
}

/// Within a batch no block falls on a later day than the batch's first block,
/// and the first block of each batch falls on a later day than the first
/// block of the batch before it.
pub proof fn lemma_batches_are_day_runs(blocks: Seq<Block>)
    ensures
        forall|k: int, i: int|
            0 <= k < day_batches(blocks).len() && 0 <= i < day_batches(blocks)[k].len()
                ==> !block_date(day_batches(blocks)[k][0]).earlier_than(
                block_date(#[trigger] day_batches(blocks)[k][i]),
            ),
        forall|k: int|
            0 < k < day_batches(blocks).len() ==> block_date(
                day_batches(blocks)[k - 1][0],
            ).earlier_than(block_date((#[trigger] day_batches(blocks)[k])[0])),
    decreases blocks.len(),
{
    if blocks.len() > 0 {
        lemma_batches_are_day_runs(blocks.drop_last());
        lemma_batches_partition_stream(blocks.drop_last());
    }
}

/// The batching is determined by the days of the blocks: two streams whose
/// blocks fall on the same days, place by place, are cut at the same places.
pub proof fn lemma_batching_follows_dates(left: Seq<Block>, right: Seq<Block>)
    requires
        left.len() == right.len(),
        forall|i: int| 0 <= i < left.len() ==> block_date(#[trigger] left[i]) == block_date(right[i]),
    ensures
        day_batches(left).len() == day_batches(right).len(),
        forall|k: int|
            0 <= k < day_batches(left).len() ==> (#[trigger] day_batches(left)[k]).len()
                == day_batches(right)[k].len(),
        forall|k: int|
            0 <= k < day_batches(left).len() ==> block_date((#[trigger] day_batches(left)[k])[0])
                == block_date(day_batches(right)[k][0]),
    decreases left.len(),
{
    if left.len() > 0 {
        assert forall|i: int| 0 <= i < left.len() - 1 implies block_date(
            #[trigger] left.drop_last()[i],
        ) == block_date(right.drop_last()[i]) by {
            assert(block_date(left[i]) == block_date(right[i]));
        }
        lemma_batching_follows_dates(left.drop_last(), right.drop_last());
        lemma_batches_partition_stream(left.drop_last());
        lemma_batches_partition_stream(right.drop_last());
        assert(block_date(left[left.len() - 1]) == block_date(right[left.len() - 1]));
    }
}

/// Every block of a batch is a block of the stream.
pub proof fn lemma_batches_hold_stream_blocks(blocks: Seq<Block>)
    ensures
        forall|k: int, i: int|
            0 <= k < day_batches(blocks).len() && 0 <= i < day_batches(blocks)[k].len()
                ==> blocks.contains(#[trigger] day_batches(blocks)[k][i]),
    decreases blocks.len(),
{
    if blocks.len() > 0 {
        let shorter = blocks.drop_last();
        let earlier = day_batches(shorter);
        let batches = day_batches(blocks);
        lemma_batches_hold_stream_blocks(shorter);
        assert(blocks[blocks.len() - 1] == blocks.last());
        assert forall|k: int, i: int| 0 <= k < batches.len() && 0 <= i < batches[k].len() implies blocks.contains(
            #[trigger] batches[k][i]) by {
            let block = batches[k][i];
            if block != blocks.last() {
                assert(k < earlier.len() && i < earlier[k].len() && earlier[k][i] == block);
                assert(shorter.contains(block));
                let j = choose|j: int| 0 <= j < shorter.len() && shorter[j] == block;
                assert(blocks[j] == block);
            }
        }
    }
}

/// Where no block of the stream falls on an earlier day than a block before
/// it, as in a stream with ascending timestamps, all blocks of a batch fall
/// on the same day.
pub proof fn lemma_batches_share_one_date(blocks: Seq<Block>)
    requires
        forall|i: int, j: int|
            0 <= i <= j < blocks.len() ==> !block_date(#[trigger] blocks[j]).earlier_than(
                block_date(#[trigger] blocks[i]),
            ),
    ensures
        forall|k: int, i: int|
            0 <= k < day_batches(blocks).len() && 0 <= i < day_batches(blocks)[k].len()
                ==> block_date(#[trigger] day_batches(blocks)[k][i]) == block_date(
                day_batches(blocks)[k][0],
            ),
    decreases blocks.len(),
{
    if blocks.len() > 0 {
        let shorter = blocks.drop_last();
        let earlier = day_batches(shorter);
        let batches = day_batches(blocks);
        let last = blocks.last();
        assert forall|i: int, j: int| 0 <= i <= j < shorter.len() implies !block_date(
            #[trigger] shorter[j],
        ).earlier_than(block_date(#[trigger] shorter[i])) by {
            assert(shorter[i] == blocks[i] && shorter[j] == blocks[j]);
        }
        lemma_batches_share_one_date(shorter);
        lemma_batches_hold_stream_blocks(shorter);
        lemma_batches_partition_stream(shorter);
        if !(earlier.len() == 0 || starts_new_day(earlier.last(), last)) {
            let first = earlier.last()[0];
            assert(earlier[earlier.len() - 1][0] == first);
            assert(shorter.contains(first));
            let j = choose|j: int| 0 <= j < shorter.len() && shorter[j] == first;
            assert(blocks[j] == first);
            assert(blocks[blocks.len() - 1] == last);
            assert(!block_date(last).earlier_than(block_date(first)));
            assert(!block_date(first).earlier_than(block_date(last)));
            assert(block_date(last) == block_date(first));
        }
        assert forall|k: int, i: int| 0 <= k < batches.len() && 0 <= i < batches[k].len() implies block_date(
            #[trigger] batches[k][i]) == block_date(batches[k][0]) by {
            if k < earlier.len() && i < earlier[k].len() {
                assert(batches[k][i] == earlier[k][i]);
                assert(batches[k][0] == earlier[k][0]);
            }
        }
    }
}

} // verus!
