use parser::datasets::all_metadata::insert_data;
use parser::actions::min_height::{find_first_inserted_unsafe_height, Heights, StartingPoint};
use parser::actions::parse::SentData;
use parser::databases::database2::{Database2, Taken};
use parser::databases::{check_if_needs_to_compute_addresses, check_if_usable, Metadata};
use parser::datasets::min_initial_state::{
    min_date, min_height, DateMapInitialState, DatasetInitialState, HeightMapInitialState,
    MinInitialState, MinInitialStates,
};

fn state(last_date: Option<i32>, last_height: Option<usize>) -> MinInitialState {
    MinInitialState {
        first_unsafe_date: None,
        first_unsafe_height: None,
        last_date,
        last_height,
    }
}

fn states(inserted: MinInitialState, computed: MinInitialState) -> MinInitialStates {
    MinInitialStates { inserted, computed }
}

#[test]
fn heights_min() {
    assert_eq!(Heights { inserted: 10, computed: 4 }.min(), 4);
    assert_eq!(Heights { inserted: 3, computed: 4 }.min(), 3);
    assert_eq!(Heights::default().min(), 0);
}

#[test]
fn least_height_and_date() {
    assert_eq!(min_height(&[]), None);
    assert_eq!(min_height(&[Some(5), Some(3), Some(9)]), Some(3));
    assert_eq!(min_height(&[Some(5), None, Some(9)]), None);
    assert_eq!(min_date(&[Some(-1), Some(3)]), Some(-1));
    assert_eq!(min_date(&[None]), None);
    assert_eq!(min_date(&[]), None);
}

#[test]
fn min_initial_state_from_maps() {
    let dates = [
        DateMapInitialState { first_unsafe_date: Some(20), last_date: Some(19) },
        DateMapInitialState { first_unsafe_date: Some(10), last_date: Some(30) },
    ];
    let heights = [
        HeightMapInitialState { first_unsafe_height: Some(7), last_height: None },
        HeightMapInitialState { first_unsafe_height: Some(8), last_height: Some(100) },
    ];
    let s = MinInitialState::compute_from_dataset(&dates, &heights);
    assert_eq!(s.first_unsafe_date, Some(10));
    assert_eq!(s.last_date, Some(19));
    assert_eq!(s.first_unsafe_height, Some(7));
    assert_eq!(s.last_height, None);

    let empty = MinInitialState::compute_from_dataset(&[], &[]);
    assert_eq!(empty, MinInitialState::default());
}

#[test]
fn min_initial_state_from_datasets_skips_those_without_maps() {
    let datasets = [
        DatasetInitialState {
            has_date_maps: true,
            has_height_maps: false,
            state: state(Some(40), None),
        },
        DatasetInitialState {
            has_date_maps: false,
            has_height_maps: true,
            state: state(None, Some(900)),
        },
        DatasetInitialState {
            has_date_maps: true,
            has_height_maps: true,
            state: state(Some(35), Some(950)),
        },
    ];
    let s = MinInitialState::compute_from_datasets(&datasets);
    assert_eq!(s.last_date, Some(35));
    assert_eq!(s.last_height, Some(900));
    assert_eq!(s.first_unsafe_date, None);

    let both = MinInitialStates::compute_from_datasets(&datasets, &datasets[2..]);
    assert_eq!(both.inserted, s);
    assert_eq!(both.computed.last_height, Some(950));

    let mut target = MinInitialStates::default();
    target.consume(both);
    assert_eq!(target, both);
}

#[test]
fn resume_after_the_last_safe_height() {
    let datasets = states(state(Some(100), Some(5_000)), state(Some(90), Some(4_000)));
    let start = find_first_inserted_unsafe_height(
        true,
        Some(100),
        Some(4_999),
        Some(3_999),
        &datasets,
        Some(5_000),
        Some(100),
    );
    assert_eq!(
        start,
        StartingPoint::Resume(Heights { inserted: 5_000, computed: 4_000 })
    );
}

#[test]
fn computing_starts_over_when_behind_its_last_day() {
    let datasets = states(state(Some(100), Some(5_000)), state(Some(90), Some(3_000)));
    let start = find_first_inserted_unsafe_height(
        true,
        Some(100),
        Some(4_999),
        Some(3_999),
        &datasets,
        Some(5_000),
        Some(100),
    );
    assert_eq!(
        start,
        StartingPoint::Resume(Heights { inserted: 5_000, computed: 0 })
    );
}

#[test]
fn start_over_when_unusable_or_out_of_sync() {
    let datasets = states(state(Some(100), Some(5_000)), state(None, None));
    assert_eq!(
        find_first_inserted_unsafe_height(false, Some(100), Some(4_999), None, &datasets, Some(1), Some(1)),
        StartingPoint::StartOver { include_addresses: true }
    );
    // The inserted datasets end before the saved day.
    assert_eq!(
        find_first_inserted_unsafe_height(true, Some(101), Some(4_999), None, &datasets, Some(1), Some(1)),
        StartingPoint::StartOver { include_addresses: false }
    );
    // The inserted datasets end before the saved height.
    assert_eq!(
        find_first_inserted_unsafe_height(true, Some(100), Some(5_001), None, &datasets, Some(1), None),
        StartingPoint::StartOver { include_addresses: true }
    );
    // Nothing saved.
    assert_eq!(
        find_first_inserted_unsafe_height(true, None, None, None, &datasets, Some(1), Some(1)),
        StartingPoint::StartOver { include_addresses: false }
    );
}

#[test]
fn databases_checks() {
    let metadata = Metadata { last_height: Some(10), last_date: Some(3) };
    assert!(!check_if_needs_to_compute_addresses(&metadata, 10, 3));
    assert!(check_if_needs_to_compute_addresses(&metadata, 11, 3));
    assert!(check_if_needs_to_compute_addresses(&metadata, 10, 4));
    assert!(check_if_needs_to_compute_addresses(&Metadata::default(), 0, 0));

    assert!(check_if_usable(true, true, &metadata, Some(10), Some(3)));
    assert!(!check_if_usable(true, true, &metadata, Some(9), Some(3)));
    assert!(!check_if_usable(true, true, &metadata, None, Some(3)));
    assert!(!check_if_usable(false, true, &metadata, Some(10), Some(3)));
    assert!(!check_if_usable(true, false, &metadata, Some(10), Some(3)));
    assert!(check_if_usable(true, true, &Metadata::default(), None, None));
}

#[test]
fn database2_pending_writes() {
    let mut db: Database2<u32> = Database2::new();
    assert!(db.is_clean());
    assert_eq!(db.insert(7, 70), None);
    assert_eq!(db.get_from_puts(&7), Some(&70));
    assert_eq!(db.insert(7, 71), Some(70));
    assert!(!db.is_clean());

    assert_eq!(db.take(&7), Taken::Cached(71));
    assert_eq!(db.get_from_puts(&7), None);
    assert_eq!(db.take(&8), Taken::FromDatabase);

    db.remove(&9);
    assert_eq!(db.remove_from_puts(&9), None);
    assert_eq!(db.insert(9, 90), None);
    assert_eq!(db.get_from_puts(&9), Some(&90));
}

#[test]
fn sent_data_accumulates() {
    let mut sent = SentData::default();
    sent.send(1_000);
    sent.send(234);
    assert_eq!(sent.volume, 1_234);
    assert_eq!(sent.count, 2);
}

#[test]
fn address_counts_of_a_block() {
    let first = insert_data(0, 5, None, 1, false);
    assert_eq!(first.new_addresses, 5);
    let next = insert_data(1, 9, Some(5), 2, true);
    assert_eq!(next.created_addresses, 9);
    assert_eq!(next.new_addresses, 4);
    assert_eq!(next.empty_addresses, 2);
    assert!(next.insert_date);
}
