use vstd::prelude::*;

use crate::datasets::min_initial_state::MinInitialStates;

verus! {

/// Heights from which parsing (inserted) and computing (computed) must resume.
#[derive(Debug, Clone, Copy, Default, PartialEq, Eq, Structural)]
pub struct Heights {
    pub inserted: usize,
    pub computed: usize,
}

impl Heights {
    /// The smaller of the two heights.
    pub fn min(&self) -> (res: usize)
        ensures
            res == if self.inserted <= self.computed {
                self.inserted
            } else {
                self.computed
            },
    {
        if self.inserted <= self.computed {
            self.inserted
        } else {
            self.computed
        }
    }
}

/// Where to start from: resume at the given heights, or start over, with the
/// address databases and states or without them.
#[derive(Debug, Clone, Copy, PartialEq, Eq, Structural)]
pub enum StartingPoint {
    Resume(Heights),
    StartOver { include_addresses: bool },
}

/// Whether a known value is at least `min`; an unknown one never is.
pub open spec fn reaches(value: Option<usize>, min: usize) -> bool {
    match value {
        Some(v) => min <= v,
        None => false,
    }
}

/// Whether a known day is at least `min`; an unknown one never is.
pub open spec fn reaches_date(value: Option<i32>, min: i32) -> bool {
    match value {
        Some(v) => min <= v,
        None => false,
    }
}

/// Where to start from, as `find_first_inserted_unsafe_height` decides it.
pub open spec fn starting_point(
    usable_databases: bool,
    last_safe_date: Option<i32>,
    last_safe_height: Option<usize>,
    computed_last_date_height: Option<usize>,
    datasets: MinInitialStates,
    address_last_height: Option<usize>,
    address_last_date: Option<i32>,
) -> StartingPoint {
    let resume = match last_safe_date {
        Some(date) if usable_databases && reaches_date(datasets.inserted.last_date, date) =>
            match last_safe_height {
                Some(height) if reaches(datasets.inserted.last_height, height) => {
                    let computed = match (datasets.computed.last_date, computed_last_date_height) {
                        (Some(_), Some(date_height)) if reaches(
                            datasets.computed.last_height,
                            date_height,
                        ) => (date_height + 1) as usize,
                        _ => 0,
                    };
                    Some(Heights { inserted: (height + 1) as usize, computed })
                },
                _ => None,
            },
        _ => None,
    };
    match resume {
        Some(heights) => StartingPoint::Resume(heights),
        None => StartingPoint::StartOver {
            include_addresses: !usable_databases || address_last_date is None
                || address_last_height is None,
        },
    }
}

/// Where parsing starts from. It resumes exactly when the databases are
/// usable, the last safe day and its last height are known, and the inserted
/// datasets reach both. Parsing then resumes right after the last safe
/// height; computing resumes right after the last height of the last computed
/// day when the computed datasets reach that height, whatever the inserted
/// height, and from the start otherwise. When it starts over, the addresses
/// are included exactly when the databases are not usable or the address
/// datasets have no last height or no last day.
pub proof fn lemma_where_parsing_resumes(
    usable_databases: bool,
    last_safe_date: Option<i32>,
    last_safe_height: Option<usize>,
    computed_last_date_height: Option<usize>,
    datasets: MinInitialStates,
    address_last_height: Option<usize>,
    address_last_date: Option<i32>,
)
    requires
        last_safe_height matches Some(h) ==> h < usize::MAX,
        computed_last_date_height matches Some(h) ==> h < usize::MAX,
    ensures
        ({
            let res = starting_point(
                usable_databases,
                last_safe_date,
                last_safe_height,
                computed_last_date_height,
                datasets,
                address_last_height,
                address_last_date,
            );
            let resumes = usable_databases && match (last_safe_date, last_safe_height) {
                (Some(date), Some(height)) => reaches_date(datasets.inserted.last_date, date)
                    && reaches(datasets.inserted.last_height, height),
                _ => false,
            };
            &&& res is Resume <==> resumes
            &&& res matches StartingPoint::Resume(heights) ==> {
                &&& last_safe_height matches Some(height) && heights.inserted == height + 1
                &&& match (datasets.computed.last_date, computed_last_date_height) {
                    (Some(_), Some(date_height)) => if reaches(
                        datasets.computed.last_height,
                        date_height,
                    ) {
                        heights.computed == date_height + 1
                    } else {
                        heights.computed == 0
                    },
                    _ => heights.computed == 0,
                }
            }
            &&& res matches StartingPoint::StartOver { include_addresses } ==> include_addresses
                == (!usable_databases || address_last_date is None || address_last_height is None)
        }),
{
}

/// Decides where parsing starts from.
///
/// It resumes only when the databases are usable, a day was saved
/// (`last_safe_date`, the last day of the saved states), the datasets were
/// inserted up to that day, its last height is known (`last_safe_height`)
/// and the datasets were inserted up to that height. Parsing then resumes
/// after that height, and computing after the last height of the last
/// computed day (`computed_last_date_height`) when the computed datasets
/// reach it, else from the start. Otherwise it starts over, with the
/// addresses too when the databases are not usable or the address datasets
/// have no last height or day.
pub fn find_first_inserted_unsafe_height(
    usable_databases: bool,
    last_safe_date: Option<i32>,
    last_safe_height: Option<usize>,
    computed_last_date_height: Option<usize>,
    datasets: &MinInitialStates,
    address_last_height: Option<usize>,
    address_last_date: Option<i32>,
) -> (res: StartingPoint)
    requires
        last_safe_height matches Some(h) ==> h < usize::MAX,
        computed_last_date_height matches Some(h) ==> h < usize::MAX,
    ensures
        res == starting_point(
            usable_databases,
            last_safe_date,
            last_safe_height,
            computed_last_date_height,
            *datasets,
            address_last_height,
            address_last_date,
        ),
{
    let include_addresses = !usable_databases || address_last_date.is_none()
        || address_last_height.is_none();
    let start_over = StartingPoint::StartOver { include_addresses };

    let last_safe_date = match last_safe_date {
        Some(date) => date,
        None => {
            return start_over;
        },
    };

    if !usable_databases {
        return start_over;
    }

    let inserted_last_date_is_older_than_saved_state = match datasets.inserted.last_date {
        Some(date) => date < last_safe_date,
        None => true,
    };

    if inserted_last_date_is_older_than_saved_state {
        return start_over;
    }

    let last_safe_height = match last_safe_height {
        Some(height) => height,
        None => {
            return start_over;
        },
    };

    let inserted_heights_and_dates_are_out_of_sync = match datasets.inserted.last_height {
        Some(height) => height < last_safe_height,
        None => true,
    };

    if inserted_heights_and_dates_are_out_of_sync {
        return start_over;
    }

    let computed = match datasets.computed.last_date {
        Some(_) => match computed_last_date_height {
            Some(date_height) => {
                let behind = match datasets.computed.last_height {
                    Some(height) => height < date_height,
                    None => true,
                };
                if behind {
                    0
                } else {
                    date_height + 1
                }
            },
            None => 0,
        },
        None => 0,
    };

    StartingPoint::Resume(Heights { inserted: last_safe_height + 1, computed })
}

} // verus!
