use parser::parse::sparsed_vec::SparsedVec;

#[test]
fn test_basics() {
    let mut v: SparsedVec<usize, usize> = SparsedVec::default();

    assert_eq!(
        v.insert(0, 0),
        None,
        "Inserting to empty index should return None"
    );

    assert_eq!(v.to_vec(), vec![(0, &0)]);
    assert_eq!(v.last_index(), Some(0));
    assert_eq!(v.get(0), Some(&0));
    assert_eq!(v.get(100000000), None);

    assert_eq!(
        v.insert(0, 1),
        Some(0),
        "Inserting to occupied spot should replace previous value and return it"
    );
    assert_eq!(v.to_vec(), vec![(0, &1)]);
    assert_eq!(v.last_index(), Some(0));

    assert_eq!(v.insert(1, 2), None);
    assert_eq!(v.insert(2, 3), None);

    assert_eq!(v.to_vec(), vec![(0, &1), (1, &2), (2, &3)]);
    assert_eq!(v.last_index(), Some(2));

    assert_eq!(v.get(1), Some(&2));

    assert_eq!(v.remove(1), Some(2));
    assert_eq!(v.to_vec(), vec![(0, &1), (2, &3)]);
    assert_eq!(*v.holes(), vec![(1, 1)]);
    assert_eq!(*v.values(), vec![1, 3]);
    assert_eq!(v.last_index(), Some(2));

    assert_eq!(v.insert(6, 4), None);
    assert_eq!(v.get(5), None);
    assert_eq!(v.get(6), Some(&4));
    assert_eq!(v.get(7), None);

    assert_eq!(v.to_vec(), vec![(0, &1), (2, &3), (6, &4)]);
    assert_eq!(
        *v.holes(),
        vec![(1, 1), (3, 3)],
        "Adding value far away should create a hole at the end"
    );
    assert_eq!(*v.values(), vec![1, 3, 4]);
    assert_eq!(v.last_index(), Some(6));

    assert_eq!(v.insert(6, 5), Some(4));
    assert_eq!(v.to_vec(), vec![(0, &1), (2, &3), (6, &5)]);
    assert_eq!(v.last_index(), Some(6));

    assert_eq!(v.insert(7, 6), None);
    assert_eq!(v.insert(8, 7), None);
    assert_eq!(v.insert(5, 8), None);

    assert_eq!(
        v.to_vec(),
        vec![(0, &1), (2, &3), (5, &8), (6, &5), (7, &6), (8, &7)]
    );
    assert_eq!(
        *v.holes(),
        vec![(1, 1), (3, 2)],
        "Should've shrunk the last hole at the end"
    );
    assert_eq!(v.get(0), Some(&1));
    assert_eq!(v.get(1), None);
    assert_eq!(v.get(2), Some(&3));
    assert_eq!(v.get(3), None);
    assert_eq!(v.get(4), None);
    assert_eq!(v.get(5), Some(&8));
    assert_eq!(v.get(6), Some(&5));
    assert_eq!(v.get(7), Some(&6));
    assert_eq!(v.get(8), Some(&7));
    assert_eq!(*v.values(), vec![1, 3, 8, 5, 6, 7]);
    assert_eq!(v.last_index(), Some(8));

    assert_eq!(v.insert(1, 9), None);

    assert_eq!(
        v.to_vec(),
        vec![
            (0, &1),
            (1, &9),
            (2, &3),
            (5, &8),
            (6, &5),
            (7, &6),
            (8, &7)
        ]
    );
    assert_eq!(*v.holes(), vec![(3, 2)], "Should've remove the first hole");
    assert_eq!(*v.values(), vec![1, 9, 3, 8, 5, 6, 7]);
    assert_eq!(v.last_index(), Some(8));

    assert_eq!(v.remove(2), Some(3));
    assert_eq!(
        *v.holes(),
        vec![(2, 3)],
        "Should expanded by one on the left side"
    );
    assert_eq!(v.last_index(), Some(8));

    assert_eq!(v.remove(5), Some(8));
    assert_eq!(
        *v.holes(),
        vec![(2, 4)],
        "Should expanded by one on the right side"
    );
    assert_eq!(v.last_index(), Some(8));

    assert_eq!(v.remove(0), Some(1));
    assert_eq!(*v.holes(), vec![(0, 1), (2, 4)], "Should've added a new hole");
    assert_eq!(v.last_index(), Some(8));

    assert_eq!(v.remove(1), Some(9));
    assert_eq!(v.to_vec(), vec![(6, &5), (7, &6), (8, &7)]);
    assert_eq!(*v.holes(), vec![(0, 6)], "Should've merged the two holes");
    assert_eq!(*v.values(), vec![5, 6, 7]);
    assert_eq!(v.last_index(), Some(8));

    assert_eq!(v.insert(0, 10), None);
    assert_eq!(v.remove(8), Some(7));
    assert_eq!(v.remove(0), Some(10));
    assert_eq!(v.to_vec(), vec![(6, &5), (7, &6)]);
    assert_eq!(*v.holes(), vec![(0, 6)]);
    assert_eq!(*v.values(), vec![5, 6]);
    assert_eq!(v.last_index(), Some(7));

    assert_eq!(v.remove(7), Some(6));
    assert_eq!(v.remove(6), Some(5));
    assert_eq!(v.to_vec(), vec![]);
    assert_eq!(*v.holes(), vec![]);
    assert_eq!(*v.values(), vec![] as Vec<usize>);
    assert_eq!(v.last_index(), None);

    assert_eq!(v.insert(2, 3), None);
    assert_eq!(v.to_vec(), vec![(2, &3)]);
    assert_eq!(*v.holes(), vec![(0, 2)]);
    assert_eq!(*v.values(), vec![3]);
    assert_eq!(v.last_index(), Some(2));

    assert_eq!(v.insert(0, 1), None);
    assert_eq!(v.insert(1, 2), None);
    assert_eq!(v.to_vec(), vec![(0, &1), (1, &2), (2, &3)]);
    assert_eq!(*v.holes(), vec![]);
    assert_eq!(*v.values(), vec![1, 2, 3]);
    assert_eq!(v.last_index(), Some(2));

    assert_eq!(v.insert(10, 4), None);
    assert_eq!(v.to_vec(), vec![(0, &1), (1, &2), (2, &3), (10, &4)]);
    assert_eq!(*v.holes(), vec![(3, 7)]);
    assert_eq!(*v.values(), vec![1, 2, 3, 4]);
    assert_eq!(v.last_index(), Some(10));

    assert_eq!(v.insert(20, 5), None);
    assert_eq!(
        v.to_vec(),
        vec![(0, &1), (1, &2), (2, &3), (10, &4), (20, &5)]
    );
    assert_eq!(*v.holes(), vec![(3, 7), (11, 9)]);
    assert_eq!(*v.values(), vec![1, 2, 3, 4, 5]);
    assert_eq!(v.last_index(), Some(20));

    println!("{:?}", v.insert(17, 6));
    assert_eq!(
        v.to_vec(),
        vec![(0, &1), (1, &2), (2, &3), (10, &4), (17, &6), (20, &5)]
    );
    assert_eq!(*v.holes(), vec![(3, 7), (11, 6), (18, 2)]);
    assert_eq!(*v.values(), vec![1, 2, 3, 4, 6, 5]);
    assert_eq!(v.last_index(), Some(20));

    assert_eq!(v.insert(18, 7), None);
    assert_eq!(v.get(18), Some(&7));
    assert_eq!(
        v.to_vec(),
        vec![
            (0, &1),
            (1, &2),
            (2, &3),
            (10, &4),
            (17, &6),
            (18, &7),
            (20, &5)
        ]
    );
    assert_eq!(*v.holes(), vec![(3, 7), (11, 6), (19, 1)]);
    assert_eq!(*v.values(), vec![1, 2, 3, 4, 6, 7, 5]);
    assert_eq!(v.last_index(), Some(20));

    assert_eq!(v.remove(17), Some(6));
    assert_eq!(v.get(17), None);
    assert_eq!(
        v.to_vec(),
        vec![(0, &1), (1, &2), (2, &3), (10, &4), (18, &7), (20, &5)]
    );
    assert_eq!(*v.holes(), vec![(3, 7), (11, 7), (19, 1)]);
    assert_eq!(*v.values(), vec![1, 2, 3, 4, 7, 5]);
    assert_eq!(v.last_index(), Some(20));

    assert_eq!(v.insert(17, 6), None);
    assert_eq!(v.get(17), Some(&6));
    assert_eq!(
        v.to_vec(),
        vec![
            (0, &1),
            (1, &2),
            (2, &3),
            (10, &4),
            (17, &6),
            (18, &7),
            (20, &5)
        ]
    );
    assert_eq!(*v.holes(), vec![(3, 7), (11, 6), (19, 1)]);
    assert_eq!(*v.values(), vec![1, 2, 3, 4, 6, 7, 5]);
    assert_eq!(v.last_index(), Some(20));

    assert_eq!(v.remove(20), Some(5));
    assert_eq!(
        v.to_vec(),
        vec![(0, &1), (1, &2), (2, &3), (10, &4), (17, &6), (18, &7)]
    );
    assert_eq!(*v.holes(), vec![(3, 7), (11, 6)]);
    assert_eq!(*v.values(), vec![1, 2, 3, 4, 6, 7]);
    assert_eq!(v.last_index(), Some(18));

    assert_eq!(v.insert(100, 100), None);
    assert_eq!(
        v.to_vec(),
        vec![
            (0, &1),
            (1, &2),
            (2, &3),
            (10, &4),
            (17, &6),
            (18, &7),
            (100, &100)
        ]
    );
    assert_eq!(*v.holes(), vec![(3, 7), (11, 6), (19, 81)]);
    assert_eq!(*v.values(), vec![1, 2, 3, 4, 6, 7, 100]);
    assert_eq!(v.last_index(), Some(100));

    assert_eq!(v.insert(50, 50), None);
    assert_eq!(
        v.to_vec(),
        vec![
            (0, &1),
            (1, &2),
            (2, &3),
            (10, &4),
            (17, &6),
            (18, &7),
            (50, &50),
            (100, &100)
        ]
    );
    assert_eq!(*v.holes(), vec![(3, 7), (11, 6), (19, 31), (51, 49)]);
    assert_eq!(*v.values(), vec![1, 2, 3, 4, 6, 7, 50, 100]);

    assert_eq!(v.get(49), None);
    assert_eq!(v.get(50), Some(&50));
    assert_eq!(v.get(51), None);
}

#[test]
fn get_mut_changes_the_value_in_place() {
    let mut v: SparsedVec<usize, u64> = SparsedVec::default();
    v.insert(3, 30);
    v.insert(7, 70);

    if let Some(value) = v.get_mut(7) {
        *value = 71;
    }
    assert_eq!(v.get(7), Some(&71));
    assert_eq!(v.get(3), Some(&30));
    assert_eq!(v.get_mut(5), None);
    assert_eq!(v.to_vec(), vec![(3, &30), (7, &71)]);
}

#[test]
fn first_insert_far_from_zero_starts_with_a_hole() {
    let mut v: SparsedVec<u32, u64> = SparsedVec::default();
    assert_eq!(v.insert(5u32, 1), None);
    assert_eq!(*v.holes(), vec![(0, 5)]);
    assert_eq!(*v.values(), vec![1]);
    assert_eq!(v.last_index(), Some(5));
    assert_eq!(v.get(4u32), None);
    assert_eq!(v.get(5u32), Some(&1));
}

#[test]
fn remove_of_the_last_value_forgets_the_hole_before_it() {
    let mut v: SparsedVec<usize, u64> = SparsedVec::default();
    v.insert(0, 1);
    v.insert(10, 2);
    assert_eq!(*v.holes(), vec![(1, 9)]);

    assert_eq!(v.remove(10), Some(2));
    assert_eq!(*v.holes(), vec![]);
    assert_eq!(*v.values(), vec![1]);
    assert_eq!(v.last_index(), Some(0));

    assert_eq!(v.remove(0), Some(1));
    assert_eq!(v.last_index(), None);
    assert_eq!(v.to_vec(), vec![]);
}

#[test]
fn remove_of_a_missing_index_is_refused_quietly() {
    let mut v: SparsedVec<usize, u64> = SparsedVec::default();
    assert_eq!(v.remove(3), None);
    v.insert(2, 20);
    assert_eq!(v.remove(9), None);
    assert_eq!(v.to_vec(), vec![(2, &20)]);
}

#[test]
fn remove_inside_a_hole_shrinks_it() {
    let mut v: SparsedVec<usize, u64> = SparsedVec::default();
    v.insert(0, 1);
    v.insert(10, 2);
    assert_eq!(*v.holes(), vec![(1, 9)]);

    assert_eq!(v.remove(4), None);
    assert_eq!(*v.holes(), vec![(1, 3)]);
    assert_eq!(*v.values(), vec![1, 2]);
    assert_eq!(v.last_index(), Some(10));
}

#[test]
fn remove_at_the_edge_of_a_hole_changes_nothing() {
    let mut v: SparsedVec<usize, u64> = SparsedVec::default();
    v.insert(0, 1);
    v.insert(10, 2);
    assert_eq!(v.remove(1), None);
    assert_eq!(v.remove(9), None);
    assert_eq!(v.remove(11), None);
    assert_eq!(*v.holes(), vec![(1, 9)]);
    assert_eq!(v.to_vec(), vec![(0, &1), (10, &2)]);
}

#[test]
fn clear_forgets_everything() {
    let mut v: SparsedVec<usize, u64> = SparsedVec::default();
    v.insert(1, 1);
    v.insert(4, 4);
    v.clear();
    assert_eq!(v.to_vec(), vec![]);
    assert_eq!(*v.holes(), vec![]);
    assert_eq!(v.last_index(), None);
    assert_eq!(v.insert(2, 2), None);
    assert_eq!(*v.holes(), vec![(0, 2)]);
}

#[test]
fn from_parts_checks_the_parts() {
    let v: SparsedVec<usize, u64> = SparsedVec::from_parts(Some(6), vec![(1, 1), (3, 3)], vec![1, 3, 4]).unwrap();
    assert_eq!(v.to_vec(), vec![(0, &1), (2, &3), (6, &4)]);
    // Holes that touch, an empty hole, a hole past the last index, a count of
    // values that does not match.
    assert!(SparsedVec::<usize, u64>::from_parts(Some(6), vec![(1, 1), (2, 3)], vec![1, 3, 4, 5]).is_none());
    assert!(SparsedVec::<usize, u64>::from_parts(Some(2), vec![(1, 0)], vec![1, 2, 3]).is_none());
    assert!(SparsedVec::<usize, u64>::from_parts(Some(2), vec![(1, 2)], vec![1]).is_none());
    assert!(SparsedVec::<usize, u64>::from_parts(Some(2), vec![], vec![1, 2]).is_none());
    assert!(SparsedVec::<usize, u64>::from_parts(None, vec![], vec![]).is_some());
    assert!(SparsedVec::<usize, u64>::from_parts(None, vec![], vec![1]).is_none());
}

#[test]
fn remove_of_a_value_between_holes_merges_them() {
    let mut v: SparsedVec<usize, usize> = SparsedVec::default();
    v.insert(1, 9);
    v.insert(6, 5);
    v.insert(7, 6);
    v.insert(8, 7);
    assert_eq!(*v.holes(), vec![(0, 1), (2, 4)]);
    assert_eq!(v.remove(1), Some(9));
    assert_eq!(*v.holes(), vec![(0, 6)]);
    assert_eq!(*v.values(), vec![5, 6, 7]);
    assert_eq!(v.last_index(), Some(8));
}
