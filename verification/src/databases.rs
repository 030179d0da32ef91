use vstd::prelude::*;

pub mod database2;

verus! {

/// Whether `a` is at least `b`, an unknown value counting as less than any
/// known one.
pub open spec fn option_at_least(a: Option<usize>, b: Option<usize>) -> bool {
    match (a, b) {
        (_, None) => true,
        (None, Some(_)) => false,
        (Some(x), Some(y)) => x >= y,
    }
}

/// Whether day `a` is at least day `b`, an unknown day counting as earlier
/// than any known one.
pub open spec fn option_date_at_least(a: Option<i32>, b: Option<i32>) -> bool {
    match (a, b) {
        (_, None) => true,
        (None, Some(_)) => false,
        (Some(x), Some(y)) => x >= y,
    }
}

/// Whether a database whose last height is `last_height` has not reached
/// `height`; one with none has reached nothing.
pub open spec fn height_behind(last_height: Option<usize>, height: usize) -> bool {
    match last_height {
        Some(last) => last < height,
        None => true,
    }
}

/// Whether a database whose last day is `last_date` has not reached `date`;
/// one with none has reached nothing.
pub open spec fn date_behind(last_date: Option<i32>, date: i32) -> bool {
    match last_date {
        Some(last) => last < date,
        None => true,
    }
}

/// Where a database was last written: its last height and its last day.
#[derive(Debug, Clone, Copy, Default, PartialEq, Eq, Structural)]
pub struct Metadata {
    pub last_height: Option<usize>,
    pub last_date: Option<i32>,
}

/// Whether the address databases must be brought up to `height` and `date`:
/// they must unless they have reached both that height and that day.
pub fn check_if_needs_to_compute_addresses(
    address_to_address_index: &Metadata,
    height: usize,
    date: i32,
) -> (res: bool)
    ensures
        res == (height_behind(address_to_address_index.last_height, height) || date_behind(
            address_to_address_index.last_date,
            date,
        )),
{
    let check_height = match address_to_address_index.last_height {
        Some(last_height) => last_height < height,
        None => true,
    };
    let check_date = match address_to_address_index.last_date {
        Some(last_date) => last_date < date,
        None => true,
    };
    check_height || check_date
}

/// Whether the databases can be used as they are: the address databases are
/// in sync with each other (`address_databases_in_sync`), as far as the
/// transaction database or farther (`address_databases_farer_or_in_sync`),
/// and the address datasets reach as far as the address databases.
pub fn check_if_usable(
    address_databases_in_sync: bool,
    address_databases_farer_or_in_sync: bool,
    address_to_address_index: &Metadata,
    min_initial_last_address_height: Option<usize>,
    min_initial_last_address_date: Option<i32>,
) -> (res: bool)
    ensures
        res == (address_databases_in_sync && address_databases_farer_or_in_sync
            && option_at_least(min_initial_last_address_height, address_to_address_index.last_height)
            && option_date_at_least(min_initial_last_address_date, address_to_address_index.last_date)),
{
    if !address_databases_in_sync {
        return false;
    }

    if !address_databases_farer_or_in_sync {
        return false;
    }

    let height_ok = match (min_initial_last_address_height, address_to_address_index.last_height) {
        (_, None) => true,
        (None, Some(_)) => false,
        (Some(x), Some(y)) => x >= y,
    };
    let date_ok = match (min_initial_last_address_date, address_to_address_index.last_date) {
        (_, None) => true,
        (None, Some(_)) => false,
        (Some(x), Some(y)) => x >= y,
    };
    height_ok && date_ok
}

} // verus!
