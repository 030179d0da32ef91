use vstd::prelude::*;

verus! {

/// Whether `res` is the least of `values`, absence counting as less than any
/// height: nothing when there is no value or one of them is absent.
pub open spec fn is_least_height(values: Seq<Option<usize>>, res: Option<usize>) -> bool {
    match res {
        None => values.len() == 0 || exists|i: int| 0 <= i < values.len() && #[trigger] values[i] is None,
        Some(m) => {
            &&& values.len() > 0
            &&& forall|i: int| 0 <= i < values.len() ==> #[trigger] values[i] is Some
            &&& exists|i: int| 0 <= i < values.len() && #[trigger] values[i] == Some(m)
            &&& forall|i: int| 0 <= i < values.len() ==> m <= #[trigger] values[i]->0
        },
    }
}

/// Whether `res` is the least of `values` as `is_least_height` says, for
/// days.
pub open spec fn is_least_date(values: Seq<Option<i32>>, res: Option<i32>) -> bool {
    match res {
        None => values.len() == 0 || exists|i: int| 0 <= i < values.len() && #[trigger] values[i] is None,
        Some(m) => {
            &&& values.len() > 0
            &&& forall|i: int| 0 <= i < values.len() ==> #[trigger] values[i] is Some
            &&& exists|i: int| 0 <= i < values.len() && #[trigger] values[i] == Some(m)
            &&& forall|i: int| 0 <= i < values.len() ==> m <= #[trigger] values[i]->0
        },
    }
}

/// The least of `values`, as `is_least_height` says.
pub fn min_height(values: &[Option<usize>]) -> (res: Option<usize>)
    ensures
        is_least_height(values@, res),
{
    if values.len() == 0 {
        return None;
    }
    let mut m: usize = match values[0] {
        Some(v) => v,
        None => {
            return None;
        },
    };
    let mut i: usize = 1;
    while i < values.len()
        invariant
            1 <= i <= values@.len(),
            forall|j: int| 0 <= j < i ==> #[trigger] values@[j] is Some,
            forall|j: int| 0 <= j < i ==> m <= #[trigger] values@[j]->0,
            exists|j: int| 0 <= j < i && #[trigger] values@[j] == Some(m),
        decreases values@.len() - i,
    {
        match values[i] {
            Some(v) => {
                if v < m {
                    m = v;
                }
            },
            None => {
                return None;
            },
        }
        i += 1;
    }
    Some(m)
}

/// The least of `values`, as `is_least_date` says.
pub fn min_date(values: &[Option<i32>]) -> (res: Option<i32>)
    ensures
        is_least_date(values@, res),
{
    if values.len() == 0 {
        return None;
    }
    let mut m: i32 = match values[0] {
        Some(v) => v,
        None => {
            return None;
        },
    };
    let mut i: usize = 1;
    while i < values.len()
        invariant
            1 <= i <= values@.len(),
            forall|j: int| 0 <= j < i ==> #[trigger] values@[j] is Some,
            forall|j: int| 0 <= j < i ==> m <= #[trigger] values@[j]->0,
            exists|j: int| 0 <= j < i && #[trigger] values@[j] == Some(m),
        decreases values@.len() - i,
    {
        match values[i] {
            Some(v) => {
                if v < m {
                    m = v;
                }
            },
            None => {
                return None;
            },
        }
        i += 1;
    }
    Some(m)
}

/// Where the data kept by a dataset, or by one of its maps, stops being safe
/// and where it ends: days (counted from the start of the common era) and
/// heights.
#[derive(Debug, Clone, Copy, Default, PartialEq, Eq, Structural)]
pub struct MinInitialState {
    pub first_unsafe_date: Option<i32>,
    pub first_unsafe_height: Option<usize>,
    pub last_date: Option<i32>,
    pub last_height: Option<usize>,
}

/// The states of the inserted data and of the computed data.
#[derive(Debug, Clone, Copy, Default, PartialEq, Eq, Structural)]
pub struct MinInitialStates {
    pub inserted: MinInitialState,
    pub computed: MinInitialState,
}

impl MinInitialStates {
    /// Takes the states of `other`.
    pub fn consume(&mut self, other: Self)
        ensures
            *final(self) == other,
    {
        self.inserted = other.inserted;
        self.computed = other.computed;
    }

    /// The states of one dataset from those of its maps, for the inserted
    /// data and for the computed data.
    pub fn compute_from_dataset(
        inserted_date_maps: &[DateMapInitialState],
        inserted_height_maps: &[HeightMapInitialState],
        computed_date_maps: &[DateMapInitialState],
        computed_height_maps: &[HeightMapInitialState],
    ) -> (res: Self)
        ensures
            res.inserted == MinInitialState::from_maps(inserted_date_maps@, inserted_height_maps@),
            res.computed == MinInitialState::from_maps(computed_date_maps@, computed_height_maps@),
    {
        MinInitialStates {
            inserted: MinInitialState::compute_from_dataset(inserted_date_maps, inserted_height_maps),
            computed: MinInitialState::compute_from_dataset(computed_date_maps, computed_height_maps),
        }
    }

    /// The states of a group of datasets, for the inserted data and for the
    /// computed data.
    pub fn compute_from_datasets(
        inserted: &[DatasetInitialState],
        computed: &[DatasetInitialState],
    ) -> (res: Self)
        ensures
            res.inserted == MinInitialState::from_datasets(inserted@),
            res.computed == MinInitialState::from_datasets(computed@),
    {
        MinInitialStates {
            inserted: MinInitialState::compute_from_datasets(inserted),
            computed: MinInitialState::compute_from_datasets(computed),
        }
    }
}

/// What a map by date read when it was opened.
#[derive(Debug, Clone, Copy, PartialEq, Eq, Structural)]
pub struct DateMapInitialState {
    pub first_unsafe_date: Option<i32>,
    pub last_date: Option<i32>,
}

/// What a map by height read when it was opened.
#[derive(Debug, Clone, Copy, PartialEq, Eq, Structural)]
pub struct HeightMapInitialState {
    pub first_unsafe_height: Option<usize>,
    pub last_height: Option<usize>,
}

/// One dataset among others: whether it keeps maps by date and by height,
/// and its own state.
#[derive(Debug, Clone, Copy, PartialEq, Eq, Structural)]
pub struct DatasetInitialState {
    pub has_date_maps: bool,
    pub has_height_maps: bool,
    pub state: MinInitialState,
}

/// The states of the datasets that keep maps by date, in order.
pub open spec fn with_date_maps(datasets: Seq<DatasetInitialState>) -> Seq<MinInitialState>
    decreases datasets.len(),
{
    if datasets.len() == 0 {
        Seq::empty()
    } else {
        let rest = with_date_maps(datasets.drop_last());
        if datasets.last().has_date_maps {
            rest.push(datasets.last().state)
        } else {
            rest
        }
    }
}

/// The states of the datasets that keep maps by height, in order.
pub open spec fn with_height_maps(datasets: Seq<DatasetInitialState>) -> Seq<MinInitialState>
    decreases datasets.len(),
{
    if datasets.len() == 0 {
        Seq::empty()
    } else {
        let rest = with_height_maps(datasets.drop_last());
        if datasets.last().has_height_maps {
            rest.push(datasets.last().state)
        } else {
            rest
        }
    }
}

impl MinInitialState {
    /// The state of one dataset from those of its maps, as
    /// `compute_from_dataset` gives it.
    pub open spec fn from_maps(
        date_maps: Seq<DateMapInitialState>,
        height_maps: Seq<HeightMapInitialState>,
    ) -> MinInitialState {
        choose|res: MinInitialState|
            {
                &&& is_least_date(date_maps.map_values(|m: DateMapInitialState| m.first_unsafe_date), res.first_unsafe_date)
                &&& is_least_date(date_maps.map_values(|m: DateMapInitialState| m.last_date), res.last_date)
                &&& is_least_height(height_maps.map_values(|m: HeightMapInitialState| m.first_unsafe_height), res.first_unsafe_height)
                &&& is_least_height(height_maps.map_values(|m: HeightMapInitialState| m.last_height), res.last_height)
            }
    }

    /// The state of a group of datasets, as `compute_from_datasets` gives it.
    pub open spec fn from_datasets(datasets: Seq<DatasetInitialState>) -> MinInitialState {
        choose|res: MinInitialState|
            {
                &&& is_least_date(with_date_maps(datasets).map_values(|s: MinInitialState| s.first_unsafe_date), res.first_unsafe_date)
                &&& is_least_date(with_date_maps(datasets).map_values(|s: MinInitialState| s.last_date), res.last_date)
                &&& is_least_height(with_height_maps(datasets).map_values(|s: MinInitialState| s.first_unsafe_height), res.first_unsafe_height)
                &&& is_least_height(with_height_maps(datasets).map_values(|s: MinInitialState| s.last_height), res.last_height)
            }
    }

    /// The state of one dataset from those of its maps: for each field, the
    /// least over its maps, as `is_least_date` and `is_least_height` say.
    pub fn compute_from_dataset(
        date_maps: &[DateMapInitialState],
        height_maps: &[HeightMapInitialState],
    ) -> (res: Self)
        ensures
            is_least_date(date_maps@.map_values(|m: DateMapInitialState| m.first_unsafe_date), res.first_unsafe_date),
            is_least_date(date_maps@.map_values(|m: DateMapInitialState| m.last_date), res.last_date),
            is_least_height(height_maps@.map_values(|m: HeightMapInitialState| m.first_unsafe_height), res.first_unsafe_height),
            is_least_height(height_maps@.map_values(|m: HeightMapInitialState| m.last_height), res.last_height),
    {
        let mut first_unsafe_dates: Vec<Option<i32>> = Vec::new();
        let mut last_dates: Vec<Option<i32>> = Vec::new();
        let mut i: usize = 0;
        while i < date_maps.len()
            invariant
                i <= date_maps@.len(),
                first_unsafe_dates@ == date_maps@.take(i as int).map_values(|m: DateMapInitialState| m.first_unsafe_date),
                last_dates@ == date_maps@.take(i as int).map_values(|m: DateMapInitialState| m.last_date),
            decreases date_maps@.len() - i,
        {
            first_unsafe_dates.push(date_maps[i].first_unsafe_date);
            last_dates.push(date_maps[i].last_date);
            i += 1;
            assert(first_unsafe_dates@ =~= date_maps@.take(i as int).map_values(|m: DateMapInitialState| m.first_unsafe_date));
            assert(last_dates@ =~= date_maps@.take(i as int).map_values(|m: DateMapInitialState| m.last_date));
        }
        assert(date_maps@.take(i as int) =~= date_maps@);

        let mut first_unsafe_heights: Vec<Option<usize>> = Vec::new();
        let mut last_heights: Vec<Option<usize>> = Vec::new();
        let mut j: usize = 0;
        while j < height_maps.len()
            invariant
                j <= height_maps@.len(),
                first_unsafe_heights@ == height_maps@.take(j as int).map_values(|m: HeightMapInitialState| m.first_unsafe_height),
                last_heights@ == height_maps@.take(j as int).map_values(|m: HeightMapInitialState| m.last_height),
            decreases height_maps@.len() - j,
        {
            first_unsafe_heights.push(height_maps[j].first_unsafe_height);
            last_heights.push(height_maps[j].last_height);
            j += 1;
            assert(first_unsafe_heights@ =~= height_maps@.take(j as int).map_values(|m: HeightMapInitialState| m.first_unsafe_height));
            assert(last_heights@ =~= height_maps@.take(j as int).map_values(|m: HeightMapInitialState| m.last_height));
        }
        assert(height_maps@.take(j as int) =~= height_maps@);

        MinInitialState {
            first_unsafe_date: min_date(first_unsafe_dates.as_slice()),
            first_unsafe_height: min_height(first_unsafe_heights.as_slice()),
            last_date: min_date(last_dates.as_slice()),
            last_height: min_height(last_heights.as_slice()),
        }
    }

    /// The state of a group of datasets: for each field, the least over the
    /// datasets that keep maps of its kind (by date for the dates, by height
    /// for the heights).
    pub fn compute_from_datasets(datasets: &[DatasetInitialState]) -> (res: Self)
        ensures
            is_least_date(with_date_maps(datasets@).map_values(|s: MinInitialState| s.first_unsafe_date), res.first_unsafe_date),
            is_least_date(with_date_maps(datasets@).map_values(|s: MinInitialState| s.last_date), res.last_date),
            is_least_height(with_height_maps(datasets@).map_values(|s: MinInitialState| s.first_unsafe_height), res.first_unsafe_height),
            is_least_height(with_height_maps(datasets@).map_values(|s: MinInitialState| s.last_height), res.last_height),
    {
        let mut first_unsafe_dates: Vec<Option<i32>> = Vec::new();
        let mut last_dates: Vec<Option<i32>> = Vec::new();
        let mut first_unsafe_heights: Vec<Option<usize>> = Vec::new();
        let mut last_heights: Vec<Option<usize>> = Vec::new();
        let mut i: usize = 0;
        while i < datasets.len()
            invariant
                i <= datasets@.len(),
                first_unsafe_dates@ == with_date_maps(datasets@.take(i as int)).map_values(|s: MinInitialState| s.first_unsafe_date),
                last_dates@ == with_date_maps(datasets@.take(i as int)).map_values(|s: MinInitialState| s.last_date),
                first_unsafe_heights@ == with_height_maps(datasets@.take(i as int)).map_values(|s: MinInitialState| s.first_unsafe_height),
                last_heights@ == with_height_maps(datasets@.take(i as int)).map_values(|s: MinInitialState| s.last_height),
            decreases datasets@.len() - i,
        {
            let dataset = datasets[i];
            assert(datasets@.take(i + 1).drop_last() =~= datasets@.take(i as int));
            if dataset.has_date_maps {
                first_unsafe_dates.push(dataset.state.first_unsafe_date);
                last_dates.push(dataset.state.last_date);
            }
            if dataset.has_height_maps {
                first_unsafe_heights.push(dataset.state.first_unsafe_height);
                last_heights.push(dataset.state.last_height);
            }
            i += 1;
            assert(first_unsafe_dates@ =~= with_date_maps(datasets@.take(i as int)).map_values(|s: MinInitialState| s.first_unsafe_date));
            assert(last_dates@ =~= with_date_maps(datasets@.take(i as int)).map_values(|s: MinInitialState| s.last_date));
            assert(first_unsafe_heights@ =~= with_height_maps(datasets@.take(i as int)).map_values(|s: MinInitialState| s.first_unsafe_height));
            assert(last_heights@ =~= with_height_maps(datasets@.take(i as int)).map_values(|s: MinInitialState| s.last_height));
        }
        assert(datasets@.take(i as int) =~= datasets@);

        MinInitialState {
            first_unsafe_date: min_date(first_unsafe_dates.as_slice()),
            first_unsafe_height: min_height(first_unsafe_heights.as_slice()),
            last_date: min_date(last_dates.as_slice()),
            last_height: min_height(last_heights.as_slice()),
        }
    }
}

} // verus!
