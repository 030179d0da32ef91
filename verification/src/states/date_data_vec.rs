use vstd::prelude::*;

use crate::structs::date_data::{BlockData, BlockPath, DateData};

verus! {

/// The blocks of the days `dates`, day after day, in order.
pub open spec fn all_blocks(dates: Seq<DateData>) -> Seq<BlockData>
    decreases dates.len(),
{
    if dates.len() == 0 {
        Seq::empty()
    } else {
        all_blocks(dates.drop_last()) + dates.last().blocks@
    }
}

/// The days kept so far, each with its blocks.
#[derive(Debug)]
pub struct DateDataVec(pub Vec<DateData>);

impl Default for DateDataVec {
    fn default() -> (res: Self)
        ensures
            res.0@ == Seq::<DateData>::empty(),
    {
        DateDataVec(Vec::new())
    }
}

impl DateDataVec {
    /// The last block of the last day; none when there is no day or the last
    /// day has no block.
    pub fn last_block(&self) -> (res: Option<&BlockData>)
        ensures
            self.0@.len() == 0 ==> res is None,
            self.0@.len() > 0 ==> match res {
                Some(b) => self.0@.last().blocks@.len() > 0 && *b == self.0@.last().blocks@.last(),
                None => self.0@.last().blocks@.len() == 0,
            },
    {
        let n = self.0.len();
        if n == 0 {
            return None;
        }
        let date_data = &self.0[n - 1];
        let m = date_data.blocks.len();
        if m == 0 {
            None
        } else {
            Some(&date_data.blocks[m - 1])
        }
    }

    /// Adds `block` at the end of the blocks of the last day.
    pub fn push_block(&mut self, block: BlockData)
        requires
            old(self).0@.len() > 0,
        ensures
            ({
                let n = old(self).0@.len() - 1;
                &&& final(self).0@.len() == old(self).0@.len()
                &&& forall|i: int| 0 <= i < n ==> #[trigger] final(self).0@[i] == old(self).0@[i]
                &&& final(self).0@[n].date == old(self).0@[n].date
                &&& final(self).0@[n].blocks@ == old(self).0@[n].blocks@.push(block)
            }),
    {
        let n = self.0.len();
        let date_data = &mut self.0[n - 1];
        date_data.blocks.push(block);
    }

    /// The last block of the last day, to be changed in place; none when
    /// there is no day or the last day has no block.
    pub fn last_mut_block(&mut self) -> (res: Option<&mut BlockData>)
        ensures
            old(self).0@.len() == 0 ==> res is None && final(self).0@ == old(self).0@,
            old(self).0@.len() > 0 && old(self).0@.last().blocks@.len() == 0 ==> res is None
                && final(self).0@ == old(self).0@,
            old(self).0@.len() > 0 && old(self).0@.last().blocks@.len() > 0 ==> {
                let n = old(self).0@.len() - 1;
                let last = old(self).0@.last();
                &&& res is Some
                &&& *res.unwrap() == last.blocks@.last()
                &&& final(self).0@.len() == old(self).0@.len()
                &&& forall|i: int| 0 <= i < n ==> #[trigger] final(self).0@[i] == old(self).0@[i]
                &&& final(self).0@[n].date == last.date
                &&& final(self).0@[n].blocks@ == last.blocks@.update(
                    last.blocks@.len() - 1,
                    *final(res.unwrap()),
                )
            },
    {
        let n = self.0.len();
        if n == 0 {
            return None;
        }
        let date_data = &mut self.0[n - 1];
        let m = date_data.blocks.len();
        if m == 0 {
            return None;
        }
        Some(&mut date_data.blocks[m - 1])
    }

    /// The block before the last one, over all days.
    pub fn second_last_block(&self) -> (res: Option<&BlockData>)
        ensures
            match res {
                Some(b) => all_blocks(self.0@).len() >= 2 && *b == all_blocks(self.0@)[all_blocks(
                    self.0@,
                ).len() - 2],
                None => all_blocks(self.0@).len() < 2,
            },
    {
        let ghost dates = self.0@;
        let mut i = self.0.len();
        let mut to_skip: usize = 1;
        proof {
            assert(dates.take(dates.len() as int) =~= dates);
            assert(all_blocks(dates).take(all_blocks(dates).len() as int) =~= all_blocks(dates));
        }
        while i > 0
            invariant
                dates == self.0@,
                i <= dates.len(),
                to_skip <= 1,
                all_blocks(dates).len() == all_blocks(dates.take(i as int)).len() + 1 - to_skip,
                all_blocks(dates.take(i as int)) == all_blocks(dates).take(
                    all_blocks(dates.take(i as int)).len() as int,
                ),
            decreases i,
        {
            let blocks = &self.0[i - 1].blocks;
            proof {
                lemma_all_blocks_take_step(dates, i as int);
            }
            if blocks.len() > to_skip {
                let index = blocks.len() - 1 - to_skip;
                proof {
                    let prefix = all_blocks(dates.take(i - 1));
                    let upto = all_blocks(dates.take(i as int));
                    assert(upto[prefix.len() + index] == blocks@[index as int]);
                    assert(all_blocks(dates)[prefix.len() + index] == upto[prefix.len() + index]);
                }
                return Some(&blocks[index]);
            }
            to_skip = to_skip - blocks.len();
            i = i - 1;
        }
        proof {
            assert(dates.take(0) =~= Seq::<DateData>::empty());
        }
        None
    }

    /// The block at `block_path`, if there is one.
    pub fn get(&self, block_path: &BlockPath) -> (res: Option<&BlockData>)
        ensures
            match res {
                Some(b) => block_path.date_index < self.0@.len() && block_path.block_index
                    < self.0@[block_path.date_index as int].blocks@.len() && *b == self.0@[block_path.date_index as int].blocks@[block_path.block_index as int],
                None => block_path.date_index >= self.0@.len() || block_path.block_index
                    >= self.0@[block_path.date_index as int].blocks@.len(),
            },
    {
        let date_index = block_path.date_index as usize;
        if date_index >= self.0.len() {
            return None;
        }
        let blocks = &self.0[date_index].blocks;
        let block_index = block_path.block_index as usize;
        if block_index >= blocks.len() {
            None
        } else {
            Some(&blocks[block_index])
        }
    }

    /// Forgets every day.
    pub fn clear(&mut self)
        ensures
            final(self).0@ == Seq::<DateData>::empty(),
    {
        self.0.clear();
    }
}

/// The blocks of the first `i` days are those of the first `i - 1` days, then
/// those of day `i - 1`.
proof fn lemma_all_blocks_take_step(dates: Seq<DateData>, i: int)
    requires
        0 < i <= dates.len(),
    ensures
        all_blocks(dates.take(i)) == all_blocks(dates.take(i - 1)) + dates[i - 1].blocks@,
{
    assert(dates.take(i).drop_last() =~= dates.take(i - 1));
}

} // verus!
