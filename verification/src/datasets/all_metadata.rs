use vstd::prelude::*;

verus! {

/// The address counts of one block: the addresses created so far, those
/// created by the block, and the empty ones; whether they also stand for the
/// day (the block being its last).
#[derive(Debug, Clone, Copy, PartialEq, Eq, Structural)]
pub struct AddressCounts {
    pub created_addresses: usize,
    pub new_addresses: usize,
    pub empty_addresses: usize,
    pub insert_date: bool,
}

/// The address counts of the block at `height`: `created_addresses` and
/// `empty_addresses` are the sizes of the address databases after it, and
/// `previous_created_addresses` the addresses created up to the block before
/// (none is read at height zero, where it counts as zero).
pub fn insert_data(
    height: usize,
    created_addresses: usize,
    previous_created_addresses: Option<usize>,
    empty_addresses: usize,
    is_date_last_block: bool,
) -> (res: AddressCounts)
    requires
        height > 0 ==> previous_created_addresses is Some,
        height > 0 ==> previous_created_addresses.unwrap() <= created_addresses,
    ensures
        res.created_addresses == created_addresses,
        res.new_addresses == created_addresses - if height == 0 {
            0
        } else {
            previous_created_addresses.unwrap() as int
        },
        res.empty_addresses == empty_addresses,
        res.insert_date == is_date_last_block,
{
    let previous = if height == 0 {
        0
    } else {
        match previous_created_addresses {
            Some(previous) => previous,
            None => 0,
        }
    };
    AddressCounts {
        created_addresses,
        new_addresses: created_addresses - previous,
        empty_addresses,
        insert_date: is_date_last_block,
    }
}

} // verus!
