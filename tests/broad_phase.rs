use collision::bound::{Aabb2, Bound};
use collision::broad_phase::{BroadPhaseError, DbvtBroadPhase};
use collision::index::{FlatIndex, SpatialIndex};
use collision::pairs::{insert_pair, search_pair};

fn index_of(boxes: &[Aabb2]) -> FlatIndex<Aabb2> {
    let mut idx = FlatIndex::new();
    for (i, b) in boxes.iter().enumerate() {
        assert_eq!(idx.insert(*b), i);
    }
    idx
}

fn example_a_boxes() -> Vec<Aabb2> {
    vec![
        Aabb2::new(0, 0, 10, 10),
        Aabb2::new(5, 5, 6, 6),
        Aabb2::new(9, 9, 12, 12),
    ]
}

#[test]
fn one_dirty_entry_pairs_with_both_overlaps() {
    let idx = index_of(&example_a_boxes());
    let pairs = DbvtBroadPhase::new().find_collider_pairs(&idx, &[true, false, false]);
    assert_eq!(pairs, Ok(vec![(0, 1), (0, 2)]));
}

#[test]
fn no_dirty_entries_give_no_pairs() {
    let idx = index_of(&example_a_boxes());
    let pairs = DbvtBroadPhase::new().find_collider_pairs(&idx, &[false, false, false]);
    assert_eq!(pairs, Ok(vec![]));
    let same = vec![Aabb2::new(0, 0, 1, 1); 4];
    let idx = index_of(&same);
    let pairs = DbvtBroadPhase::new().find_collider_pairs(&idx, &[false; 4]);
    assert_eq!(pairs, Ok(vec![]));
}

#[test]
fn mutually_dirty_overlap_is_listed_once() {
    let boxes = vec![
        Aabb2::new(0, 0, 1, 1),
        Aabb2::new(100, 100, 101, 101),
        Aabb2::new(50, 50, 60, 60),
        Aabb2::new(55, 55, 70, 70),
    ];
    let idx = index_of(&boxes);
    let pairs = DbvtBroadPhase::new().find_collider_pairs(&idx, &[false, false, true, true]);
    assert_eq!(pairs, Ok(vec![(2, 3)]));
    let pairs = DbvtBroadPhase::new().find_collider_pairs(&idx, &[true, true, true, true]);
    assert_eq!(pairs, Ok(vec![(2, 3)]));
}

#[test]
fn dirty_entry_reaches_lower_and_higher_indices() {
    let boxes = vec![
        Aabb2::new(0, 0, 4, 4),
        Aabb2::new(3, 3, 8, 8),
        Aabb2::new(7, 7, 9, 9),
        Aabb2::new(20, 20, 30, 30),
    ];
    let idx = index_of(&boxes);
    let pairs = DbvtBroadPhase::new().find_collider_pairs(&idx, &[false, true, false, false]);
    assert_eq!(pairs, Ok(vec![(0, 1), (1, 2)]));
}

#[test]
fn all_overlapping_all_dirty_is_sorted_and_unique() {
    let boxes = vec![Aabb2::new(0, 0, 10, 10); 4];
    let idx = index_of(&boxes);
    let pairs = DbvtBroadPhase::new().find_collider_pairs(&idx, &[true; 4]).unwrap();
    assert_eq!(pairs, vec![(0, 1), (0, 2), (0, 3), (1, 2), (1, 3), (2, 3)]);
    for w in pairs.windows(2) {
        assert!(w[0] < w[1]);
    }
    for &(a, b) in &pairs {
        assert!(a < b);
        assert_ne!(a, b);
    }
}

#[test]
fn repeated_passes_agree() {
    let boxes = vec![
        Aabb2::new(0, 0, 4, 4),
        Aabb2::new(3, 3, 8, 8),
        Aabb2::new(-5, -5, 0, 0),
        Aabb2::new(7, 0, 9, 2),
    ];
    let idx = index_of(&boxes);
    let dirty = [true, false, true, false];
    let bp = DbvtBroadPhase::new();
    let first = bp.find_collider_pairs(&idx, &dirty);
    let second = bp.find_collider_pairs(&idx, &dirty);
    assert_eq!(first, second);
    assert_eq!(first, Ok(vec![(0, 1), (0, 2)]));
}

#[test]
fn touching_edges_overlap() {
    let boxes = vec![Aabb2::new(0, 0, 2, 2), Aabb2::new(2, 0, 4, 2)];
    let idx = index_of(&boxes);
    let pairs = DbvtBroadPhase::new().find_collider_pairs(&idx, &[true, false]);
    assert_eq!(pairs, Ok(vec![(0, 1)]));
}

#[test]
fn empty_index_gives_no_pairs() {
    let idx: FlatIndex<Aabb2> = FlatIndex::new();
    assert_eq!(DbvtBroadPhase::new().find_collider_pairs(&idx, &[]), Ok(vec![]));
}

#[test]
fn longer_flag_list_is_accepted() {
    let idx = index_of(&example_a_boxes());
    let pairs = DbvtBroadPhase::new().find_collider_pairs(&idx, &[true, false, false, true]);
    assert_eq!(pairs, Ok(vec![(0, 1), (0, 2)]));
}

#[test]
fn short_flag_list_is_rejected() {
    let idx = index_of(&example_a_boxes());
    let pairs = DbvtBroadPhase::new().find_collider_pairs(&idx, &[true, false]);
    assert_eq!(pairs, Err(BroadPhaseError::DirtyTooShort));
}

#[test]
fn unresolved_node_is_rejected() {
    let entries = vec![(0, Aabb2::new(0, 0, 1, 1)), (7, Aabb2::new(0, 0, 1, 1))];
    let idx = FlatIndex::from_parts(entries, vec![Some(0), Some(1)]);
    let pairs = DbvtBroadPhase::new().find_collider_pairs(&idx, &[true, true]);
    assert_eq!(pairs, Err(BroadPhaseError::CorruptIndex));
    let entries = vec![(0, Aabb2::new(0, 0, 1, 1)), (1, Aabb2::new(0, 0, 1, 1))];
    let idx = FlatIndex::from_parts(entries, vec![Some(0), None]);
    let pairs = DbvtBroadPhase::new().find_collider_pairs(&idx, &[true]);
    assert_eq!(pairs, Err(BroadPhaseError::CorruptIndex));
}

#[test]
fn pairs_use_value_indices_not_node_identities() {
    // Node identities 5, 2, 9 resolve to value indices 2, 0, 1.
    let entries = vec![
        (5, Aabb2::new(0, 0, 3, 3)),
        (2, Aabb2::new(2, 2, 5, 5)),
        (9, Aabb2::new(10, 10, 11, 11)),
    ];
    let mut map = vec![None; 10];
    map[5] = Some(2);
    map[2] = Some(0);
    map[9] = Some(1);
    let idx = FlatIndex::from_parts(entries, map);
    // Only value index 2 (node 5) is dirty; it overlaps value index 0 (node 2).
    let pairs = DbvtBroadPhase::new().find_collider_pairs(&idx, &[false, false, true]);
    assert_eq!(pairs, Ok(vec![(0, 2)]));
}

#[test]
fn flat_index_resolves_and_queries() {
    let idx = index_of(&example_a_boxes());
    assert_eq!(idx.len(), 3);
    assert_eq!(idx.entry_node(1), 1);
    assert_eq!(*idx.entry_bound(2), Aabb2::new(9, 9, 12, 12));
    assert_eq!(idx.value_index(2), Some(2));
    assert_eq!(idx.value_index(3), None);
    let mut hits = idx.query_for_indices(&Aabb2::new(6, 6, 9, 9));
    hits.sort();
    assert_eq!(hits, vec![0, 1, 2]);
    assert_eq!(idx.query_for_indices(&Aabb2::new(50, 50, 60, 60)), Vec::<usize>::new());
}

#[test]
fn box_capabilities() {
    let a = Aabb2::new(4, 5, 0, 1);
    assert_eq!(a, Aabb2 { min_x: 0, min_y: 1, max_x: 4, max_y: 5 });
    let b = Aabb2::new(3, 3, 6, 8);
    assert!(a.intersects(&b));
    assert!(!a.intersects(&Aabb2::new(5, 0, 6, 1)));
    assert!(a.contains(&Aabb2::new(1, 2, 3, 4)));
    assert!(!a.contains(&b));
    assert_eq!(a.surface_area(), 16);
    assert_eq!(Aabb2::new(0, 0, 0, 7).surface_area(), 0);
    let wide = Aabb2::new(i32::MIN, i32::MIN, i32::MAX, i32::MAX);
    assert_eq!(wide.surface_area(), 0xffff_ffffu64 * 0xffff_ffffu64);
    let u = a.union(&b);
    assert_eq!(u, Aabb2 { min_x: 0, min_y: 1, max_x: 6, max_y: 8 });
    assert!(u.contains(&a) && u.contains(&b));
}

#[test]
fn sorted_pair_insertion() {
    let mut v = Vec::new();
    for p in [(2, 3), (0, 5), (2, 1), (0, 5), (1, 9), (2, 3)] {
        insert_pair(&mut v, p);
    }
    assert_eq!(v, vec![(0, 5), (1, 9), (2, 1), (2, 3)]);
    assert_eq!(search_pair(&v, (1, 9)), Ok(1));
    assert_eq!(search_pair(&v, (2, 2)), Err(3));
    assert_eq!(search_pair(&v, (3, 0)), Err(4));
}
