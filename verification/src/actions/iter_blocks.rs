use chrono::Datelike;
use vstd::prelude::*;

verus! {

/// Where the walk over the blocks stands: the height of the first block of
/// the day being parsed, how many blocks of that day were seen, the day being
/// parsed (none before its first block), the last day kept, and the heights
/// from which inserting and computing must happen.
#[derive(Debug, Clone, Copy, PartialEq, Eq, Structural)]
pub struct IterState {
    pub height: usize,
    pub blocks_loop_i: usize,
    pub blocks_loop_date: Option<i32>,
    pub last_day: Option<i32>,
    pub first_unsafe_inserted: usize,
    pub first_unsafe_computed: usize,
}

/// A block met by the walk: its day, the day of the next block if there is
/// one, whether that next day is the first of a month, and the number of
/// blocks of the chain with the number of them that are not safe yet.
#[derive(Debug, Clone, Copy, PartialEq, Eq, Structural)]
pub struct BlockEvent {
    pub date: i32,
    pub next_date: Option<i32>,
    pub next_is_first_of_month: bool,
    pub block_count: usize,
    pub unsafe_blocks: usize,
}

/// What follows a block: keep walking the same day, go to the next day, or
/// end the month (compute the datasets when `compute`, then export).
#[derive(Debug, Clone, Copy, PartialEq, Eq, Structural)]
pub enum LoopEnd {
    SameDay,
    NextDay,
    EndOfMonth { compute: bool },
}

/// What to do with a block: push a new day first (`push_day`), parse it
/// (`parse`) at `height` for the day `date`, which block of its day it is,
/// whether it is the last block of its day, and what follows.
#[derive(Debug, Clone, Copy, PartialEq, Eq, Structural)]
pub struct Action {
    pub push_day: Option<i32>,
    pub parse: bool,
    pub height: usize,
    pub date: i32,
    pub block_index: usize,
    pub is_date_last_block: bool,
    pub end: LoopEnd,
}

/// The number of the day of a block timestamp, in seconds since the epoch:
/// days in the proleptic Gregorian calendar, January 1 of year 1 being day 1
/// (so January 1, 1970 is day 719 163).
pub open spec fn timestamp_day(timestamp: u32) -> int {
    timestamp / 86400 + 719_163
}

/// The number of the day of a block timestamp (see `timestamp_day`).
pub fn timestamp_to_day(timestamp: u32) -> (day: i32)
    ensures
        day == timestamp_day(timestamp),
{
    let days: u32 = timestamp / 86400;
    assert(days <= 49_710);
    days as i32 + 719_163
}

/// The day of the month of a day number, as chrono's calendar gives it.
pub uninterp spec fn day_of_month_of(day: i32) -> u32;

/// chrono's `NaiveDate::from_num_days_from_ce_opt` then `Datelike::day`: the
/// day of the month (from 1 to 31) of a day number, January 1 of year 1 being
/// day 1. Every day number from 1 to that of December 31, 9999 is a date
/// there, so the call does not fail on them.
#[verifier::external_body]
fn day_of_month(day: i32) -> (res: u32)
    requires
        1 <= day <= 3_652_059,
    ensures
        res == day_of_month_of(day),
        1 <= res <= 31,
{
    chrono::NaiveDate::from_num_days_from_ce_opt(day).expect("a day of years 1 to 9999").day()
}

/// The block met by the walk, from its timestamp and that of the next block
/// if there is one: the days of both, and whether the next day is the first
/// of a month.
pub fn block_event(
    timestamp: u32,
    next_timestamp: Option<u32>,
    block_count: usize,
    unsafe_blocks: usize,
) -> (event: BlockEvent)
    ensures
        event.date == timestamp_day(timestamp),
        event.next_date == match next_timestamp {
            Some(next) => Some(timestamp_day(next) as i32),
            None => None,
        },
        event.next_is_first_of_month == match next_timestamp {
            Some(next) => day_of_month_of(timestamp_day(next) as i32) == 1,
            None => false,
        },
        event.block_count == block_count,
        event.unsafe_blocks == unsafe_blocks,
{
    let date = timestamp_to_day(timestamp);
    let (next_date, next_is_first_of_month) = match next_timestamp {
        Some(next) => {
            let next_day = timestamp_to_day(next);
            (Some(next_day), day_of_month(next_day) == 1)
        },
        None => (None, false),
    };
    BlockEvent { date, next_date, next_is_first_of_month, block_count, unsafe_blocks }
}

/// The day a block is parsed for: the day of the loop, set by its first
/// block.
pub open spec fn loop_date(state: IterState, event: BlockEvent) -> i32 {
    match state.blocks_loop_date {
        Some(date) => date,
        None => event.date,
    }
}

/// Whether the walk can take this block: its height fits, a block of the
/// day being parsed is not of a later day, and the count of blocks covers
/// the unsafe ones.
pub open spec fn step_admits(state: IterState, event: BlockEvent) -> bool {
    &&& state.height + state.blocks_loop_i + 1 <= usize::MAX
    &&& state.blocks_loop_date matches Some(date) ==> event.date <= date
    &&& event.unsafe_blocks * 3 <= event.block_count
}

/// Whether a day is later than the last day kept (any day is, when none is
/// kept).
pub open spec fn later_than(day: i32, last_day: Option<i32>) -> bool {
    match last_day {
        Some(last) => last < day,
        None => true,
    }
}

/// What to do with one block, and where the walk stands after it.
///
/// The first block of a day pushes a new day when it is later than the last
/// day kept. A block is parsed when inserting must happen at its height. It
/// is the last of its day when there is no next block or the next one is of
/// a later day; then the day ends, and with it the month when the next day is
/// the first of a month, when there is no next block, or when the walk gets
/// close to the unsafe blocks at the end of the chain.
pub open spec fn step_spec(state: IterState, event: BlockEvent) -> (IterState, Action) {
    let date = loop_date(state, event);
    let height = state.height + state.blocks_loop_i;
    let last = match event.next_date {
        Some(next_date) => date < next_date,
        None => true,
    };
    let push = state.blocks_loop_date is None && later_than(event.date, state.last_day);
    let day_end_height = height + 1;
    let end_month = event.next_date is None || event.next_is_first_of_month || day_end_height
        > event.block_count - event.unsafe_blocks * 3;
    let action = Action {
        push_day: if push {
            Some(event.date)
        } else {
            None
        },
        parse: state.first_unsafe_inserted <= height,
        height: height as usize,
        date,
        block_index: state.blocks_loop_i,
        is_date_last_block: last,
        end: if !last {
            LoopEnd::SameDay
        } else if end_month {
            LoopEnd::EndOfMonth { compute: state.first_unsafe_computed <= day_end_height - 1 }
        } else {
            LoopEnd::NextDay
        },
    };
    let next = IterState {
        height: if last {
            day_end_height as usize
        } else {
            state.height
        },
        blocks_loop_i: if last {
            0
        } else {
            (state.blocks_loop_i + 1) as usize
        },
        blocks_loop_date: if last && event.next_date is Some {
            None
        } else {
            Some(date)
        },
        last_day: if push {
            Some(event.date)
        } else {
            state.last_day
        },
        first_unsafe_inserted: state.first_unsafe_inserted,
        first_unsafe_computed: state.first_unsafe_computed,
    };
    (next, action)
}

/// The actions of a walk over the blocks `events`, one per block, from
/// `state`.
pub open spec fn walk(state: IterState, events: Seq<BlockEvent>) -> Seq<Action>
    decreases events.len(),
{
    if events.len() == 0 {
        Seq::empty()
    } else {
        let (next, action) = step_spec(state, events[0]);
        seq![action] + walk(next, events.drop_first())
    }
}

/// Whether each step of a walk over `events` from `state` can be taken.
pub open spec fn walk_admits(state: IterState, events: Seq<BlockEvent>) -> bool
    decreases events.len(),
{
    events.len() == 0 || {
        let next = step_spec(state, events[0]).0;
        step_admits(state, events[0]) && walk_admits(next, events.drop_first())
    }
}

/// One step of the walk: the block is taken at the height where the walk
/// stands, for the day of the loop (its own day when it is the first of its
/// day), and parsed exactly when inserting must happen there. The first block
/// of a day pushes that day exactly when it is later than the last day kept,
/// which it then becomes. It is the last
/// of its day exactly when there is no next block or the next one is of a
/// later day; the walk then goes on with the same day, or ends the day, or
/// ends the month: when the next day is the first of a month, when there is no
/// next block, or when the next height comes within three times the unsafe
/// blocks of the end of the chain. A month that ends is computed exactly when
/// computing must happen at the height of its last block. The walk then stands
/// one block further, at the start of a day exactly when this one ended.
pub proof fn lemma_step(state: IterState, event: BlockEvent)
    requires
        step_admits(state, event),
    ensures
        ({
            let (next, action) = step_spec(state, event);
            let last = match event.next_date {
                Some(next_date) => action.date < next_date,
                None => true,
            };
            let end_month = event.next_date is None || event.next_is_first_of_month || action.height
                + 1 > event.block_count - event.unsafe_blocks * 3;
            &&& action.height == state.height + state.blocks_loop_i
            &&& action.parse == (state.first_unsafe_inserted <= action.height)
            &&& action.date == match state.blocks_loop_date {
                Some(day) => day,
                None => event.date,
            }
            &&& action.block_index == state.blocks_loop_i
            &&& action.push_day is Some <==> (state.blocks_loop_date is None && later_than(
                event.date,
                state.last_day,
            ))
            &&& action.push_day is Some ==> action.push_day == Some(event.date)
                && next.last_day == Some(event.date)
            &&& action.push_day is None ==> next.last_day == state.last_day
            &&& action.is_date_last_block == last
            &&& action.end == LoopEnd::SameDay <==> !last
            &&& action.end == LoopEnd::NextDay <==> last && !end_month
            &&& action.end is EndOfMonth <==> last && end_month
            &&& action.end matches LoopEnd::EndOfMonth { compute } ==> compute == (
            state.first_unsafe_computed <= action.height)
            &&& next.height + next.blocks_loop_i == action.height + 1
            &&& next.blocks_loop_i == 0 <==> last
            &&& next.first_unsafe_inserted == state.first_unsafe_inserted
            &&& next.first_unsafe_computed == state.first_unsafe_computed
        }),
{
}

/// Over a walk of several blocks: the blocks are taken at heights that grow by
/// exactly one from where the walk stands; a block is parsed exactly when
/// inserting must happen at its height; a month that ends with a block is
/// computed exactly when computing must happen at that block's height; the index of a block in its day
/// starts again at zero after the last block of a day and grows by one
/// otherwise; and a day is pushed only when it is later than the last day
/// kept, so the days pushed grow strictly.
pub proof fn lemma_walk(state: IterState, events: Seq<BlockEvent>)
    requires
        walk_admits(state, events),
    ensures
        ({
            let w = walk(state, events);
            &&& w.len() == events.len()
            &&& forall|k: int|
                0 <= k < w.len() ==> #[trigger] w[k].height == state.height + state.blocks_loop_i
                    + k
            &&& forall|k: int|
                0 <= k < w.len() ==> #[trigger] w[k].parse == (state.first_unsafe_inserted
                    <= w[k].height)
            &&& forall|k: int|
                0 <= k < w.len() ==> (#[trigger] w[k].end matches LoopEnd::EndOfMonth { compute }
                    ==> compute == (state.first_unsafe_computed <= w[k].height))
            &&& w.len() > 0 ==> w[0].block_index == state.blocks_loop_i
            &&& forall|k: int|
                0 < k < w.len() ==> #[trigger] w[k].block_index == if w[k - 1].is_date_last_block {
                    0
                } else {
                    w[k - 1].block_index + 1
                }
            &&& forall|k: int|
                0 <= k < w.len() ==> (#[trigger] w[k].push_day matches Some(day) ==> later_than(
                    day,
                    state.last_day,
                ))
            &&& forall|j: int, k: int|
                0 <= j < k < w.len() ==> (#[trigger] w[j].push_day matches Some(earlier) ==> (
                #[trigger] w[k].push_day matches Some(later) ==> earlier < later))
        }),
    decreases events.len(),
{
    if events.len() > 0 {
        let (next, action) = step_spec(state, events[0]);
        let rest = events.drop_first();
        lemma_walk(next, rest);
        let w = walk(state, events);
        let r = walk(next, rest);
        assert(w == seq![action] + r);
        assert forall|k: int| 0 < k < w.len() implies #[trigger] w[k] == r[k - 1] by {}
        assert(w[0] == action);
        assert forall|k: int| 0 < k < w.len() implies (#[trigger] w[k].push_day matches Some(
            day,
        ) ==> later_than(day, state.last_day)) by {
            assert(w[k] == r[k - 1]);
        }
        assert forall|j: int, k: int| 0 <= j < k < w.len() implies (
        #[trigger] w[j].push_day matches Some(earlier) ==> (#[trigger] w[k].push_day matches Some(
            later,
        ) ==> earlier < later)) by {
            assert(w[k] == r[k - 1]);
            if j > 0 {
                assert(w[j] == r[j - 1]);
            }
        }
        assert forall|k: int| 0 < k < w.len() implies #[trigger] w[k].block_index == if w[k
            - 1].is_date_last_block {
            0
        } else {
            w[k - 1].block_index + 1
        } by {
            assert(w[k] == r[k - 1]);
            if k > 1 {
                assert(w[k - 1] == r[k - 2]);
            }
        }
    }
}

/// Decides what to do with one block, and where the walk stands after it, as
/// `step_spec` says.
pub fn next_step(state: &IterState, event: BlockEvent) -> (res: (IterState, Action))
    requires
        step_admits(*state, event),
    ensures
        res == step_spec(*state, event),
{
    let mut push_day: Option<i32> = None;
    let mut last_day = state.last_day;
    let date = match state.blocks_loop_date {
        Some(date) => date,
        None => {
            let later = match state.last_day {
                Some(day) => day < event.date,
                None => true,
            };
            if later {
                push_day = Some(event.date);
                last_day = Some(event.date);
            }
            event.date
        },
    };

    let is_date_last_block = match event.next_date {
        Some(next_date) => date < next_date,
        None => true,
    };

    let height = state.height + state.blocks_loop_i;
    let parse = state.first_unsafe_inserted <= height;
    let blocks_loop_i = state.blocks_loop_i + 1;

    let action_base = Action {
        push_day,
        parse,
        height,
        date,
        block_index: state.blocks_loop_i,
        is_date_last_block,
        end: LoopEnd::SameDay,
    };

    if !is_date_last_block {
        let next = IterState {
            height: state.height,
            blocks_loop_i,
            blocks_loop_date: Some(date),
            last_day,
            first_unsafe_inserted: state.first_unsafe_inserted,
            first_unsafe_computed: state.first_unsafe_computed,
        };
        return (next, action_base);
    }

    let new_height = state.height + blocks_loop_i;
    let is_new_month = match event.next_date {
        Some(_) => event.next_is_first_of_month,
        None => true,
    };
    let is_close_to_the_end = new_height > event.block_count - event.unsafe_blocks * 3;

    let end = if is_new_month || is_close_to_the_end {
        LoopEnd::EndOfMonth { compute: state.first_unsafe_computed <= new_height - 1 }
    } else {
        LoopEnd::NextDay
    };

    let next_loop_date = match event.next_date {
        Some(_) => None,
        None => Some(date),
    };

    let next = IterState {
        height: new_height,
        blocks_loop_i: 0,
        blocks_loop_date: next_loop_date,
        last_day,
        first_unsafe_inserted: state.first_unsafe_inserted,
        first_unsafe_computed: state.first_unsafe_computed,
    };

    (next, Action { end, ..action_base })
}

} // verus!
