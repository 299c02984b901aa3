use sparse_vec::SparseVec;

fn listed(v: &SparseVec<&'static str, ()>) -> Vec<(usize, &'static str)> {
    let mut out = Vec::new();
    for (index, value) in v.iter() {
        out.push((index, *value));
    }
    out
}

#[test]
fn empty_container_has_nothing_set() {
    let v: SparseVec<u32, ()> = SparseVec::new();
    assert_eq!(v.count(), 0);
    assert!(v.is_empty());
    assert!(!v.is_set(0));
    assert!(!v.is_set(usize::MAX));
    assert_eq!(v.get(0), None);
    assert!(v.iter().is_empty());
}

#[test]
fn default_is_empty() {
    let v: SparseVec<u32, u8> = SparseVec::default();
    assert_eq!(v.count(), 0);
    assert!(v.is_empty());
    let (indices, values, allocator) = v.into_parts();
    assert!(indices.is_empty());
    assert!(values.is_empty());
    assert_eq!(allocator, 0u8);
}

#[test]
fn new_in_keeps_the_allocator_handle() {
    let v: SparseVec<u32, &str> = SparseVec::new_in("arena-7");
    assert!(v.is_empty());
    let (_, _, allocator) = v.into_parts();
    assert_eq!(allocator, "arena-7");
}

#[test]
fn with_capacity_in_is_empty_and_presized() {
    let v: SparseVec<u64, u16> = SparseVec::with_capacity_in(32, 9u16);
    assert_eq!(v.count(), 0);
    let (indices, values, allocator) = v.into_parts();
    assert!(indices.capacity() >= 32);
    assert!(values.capacity() >= 32);
    assert_eq!(allocator, 9u16);
}

#[test]
fn set_get_scenario() {
    let mut v: SparseVec<&'static str, ()> = SparseVec::new();

    assert_eq!(v.set(5, "a"), None);
    assert_eq!(v.count(), 1);

    assert_eq!(v.set(2, "b"), None);
    assert_eq!(v.count(), 2);
    assert_eq!(listed(&v), vec![(2, "b"), (5, "a")]);

    assert_eq!(v.set(5, "c"), Some("a"));
    assert_eq!(v.count(), 2);
    assert_eq!(v.get(5), Some(&"c"));

    assert_eq!(v.get(9), None);
    assert!(!v.is_set(9));
    assert_eq!(listed(&v), vec![(2, "b"), (5, "c")]);
}

#[test]
fn presized_container_does_not_grow_on_ascending_sets() {
    let fresh: SparseVec<u32, ()> = SparseVec::with_capacity(100);
    let (indices, values, allocator) = fresh.into_parts();
    let index_room = indices.capacity();
    let value_room = values.capacity();
    assert!(index_room >= 100);
    assert!(value_room >= 100);

    let mut v = SparseVec::from_parts(indices, values, allocator);
    for i in 0..100usize {
        assert_eq!(v.set(i * 3, i as u32), None);
    }
    assert_eq!(v.count(), 100);

    let (indices, values, _) = v.into_parts();
    assert_eq!(indices.capacity(), index_room);
    assert_eq!(values.capacity(), value_room);
    assert_eq!(indices.len(), 100);
    assert_eq!(values[99], 99);
    assert_eq!(indices[99], 297);
}

#[test]
fn set_inserts_at_the_sorted_position() {
    let mut v: SparseVec<char, ()> = SparseVec::new();
    v.set(10, 'k');
    v.set(30, 'm');
    v.set(20, 'l');
    v.set(0, 'a');
    v.set(usize::MAX, 'z');
    let (indices, values, _) = v.into_parts();
    assert_eq!(indices, vec![0, 10, 20, 30, usize::MAX]);
    assert_eq!(values, vec!['a', 'k', 'l', 'm', 'z']);
}

#[test]
fn set_replaces_in_place() {
    let mut v: SparseVec<u8, ()> = SparseVec::new();
    v.set(1, 11);
    v.set(2, 22);
    v.set(3, 33);
    assert_eq!(v.set(2, 77), Some(22));
    assert_eq!(v.set(2, 78), Some(77));
    let (indices, values, _) = v.into_parts();
    assert_eq!(indices, vec![1, 2, 3]);
    assert_eq!(values, vec![11, 78, 33]);
}

#[test]
fn set_reports_previous_value_and_count() {
    let mut v: SparseVec<u32, ()> = SparseVec::new();
    for (step, index) in [40usize, 7, 19, 7, 40, 3, 19, 100].iter().enumerate() {
        let before = v.count();
        let was_set = v.is_set(*index);
        let held = v.get(*index).copied();
        let previous = v.set(*index, step as u32);
        assert_eq!(previous, held);
        assert_eq!(previous.is_some(), was_set);
        if was_set {
            assert_eq!(v.count(), before);
        } else {
            assert_eq!(v.count(), before + 1);
        }
    }
    assert_eq!(v.count(), 5);
}

#[test]
fn after_each_set_the_index_is_set_and_iteration_ascends() {
    let mut v: SparseVec<usize, ()> = SparseVec::new();
    let mut seed: usize = 12345;
    for _ in 0..200 {
        seed = seed.wrapping_mul(6364136223846793005).wrapping_add(1442695040888963407);
        let index = (seed >> 33) % 64;
        let value = seed % 1000;
        v.set(index, value);
        assert!(v.is_set(index));
        assert_eq!(v.get(index), Some(&value));
        let entries = v.iter();
        assert_eq!(entries.len(), v.count());
        for pair in entries.windows(2) {
            assert!(pair[0].0 < pair[1].0);
        }
    }
}

#[test]
fn behaves_like_an_ordered_map() {
    let mut v: SparseVec<u64, ()> = SparseVec::new();
    let mut model: std::collections::BTreeMap<usize, u64> = std::collections::BTreeMap::new();
    let mut seed: u64 = 99;
    for _ in 0..500 {
        seed = seed.wrapping_mul(6364136223846793005).wrapping_add(1442695040888963407);
        let index = ((seed >> 40) % 97) as usize;
        let value = seed >> 7;
        assert_eq!(v.set(index, value), model.insert(index, value));
        assert_eq!(v.count(), model.len());
    }
    for index in 0..100usize {
        assert_eq!(v.get(index), model.get(&index));
        assert_eq!(v.is_set(index), model.contains_key(&index));
    }
    let entries: Vec<(usize, u64)> = v.iter().into_iter().map(|(i, x)| (i, *x)).collect();
    let expected: Vec<(usize, u64)> = model.into_iter().collect();
    assert_eq!(entries, expected);
}

#[test]
fn count_equals_iteration_steps() {
    let mut v: SparseVec<u8, ()> = SparseVec::new();
    assert_eq!(v.iter().len(), v.count());
    for i in [9usize, 1, 5, 1, 200, 9] {
        v.set(i, 0);
        assert_eq!(v.iter().len(), v.count());
    }
    assert_eq!(v.count(), 4);
    let n = v.count();
    assert_eq!(v.iter_mut().len(), n);
}

#[test]
fn iteration_can_be_restarted() {
    let mut v: SparseVec<u8, ()> = SparseVec::new();
    v.set(4, 40);
    v.set(2, 20);
    let first: Vec<(usize, u8)> = v.iter().into_iter().map(|(i, x)| (i, *x)).collect();
    let second: Vec<(usize, u8)> = v.iter().into_iter().map(|(i, x)| (i, *x)).collect();
    assert_eq!(first, vec![(2, 20), (4, 40)]);
    assert_eq!(first, second);
}

#[test]
fn get_mut_writes_through() {
    let mut v: SparseVec<String, ()> = SparseVec::new();
    v.set(3, String::from("three"));
    v.set(8, String::from("eight"));
    match v.get_mut(8) {
        Some(slot) => slot.push_str("!"),
        None => panic!("index 8 is set"),
    }
    assert!(v.get_mut(5).is_none());
    assert_eq!(v.get(8), Some(&String::from("eight!")));
    assert_eq!(v.get(3), Some(&String::from("three")));
    assert_eq!(v.count(), 2);
}

#[test]
fn iter_mut_writes_every_value() {
    let mut v: SparseVec<u32, ()> = SparseVec::new();
    v.set(30, 3);
    v.set(10, 1);
    v.set(20, 2);
    let mut seen = Vec::new();
    for (index, value) in v.iter_mut() {
        seen.push((index, *value));
        *value = *value * 100 + index as u32;
    }
    assert_eq!(seen, vec![(10, 1), (20, 2), (30, 3)]);
    let (indices, values, _) = v.into_parts();
    assert_eq!(indices, vec![10, 20, 30]);
    assert_eq!(values, vec![110, 220, 330]);
}

#[test]
fn direct_access_reads_and_writes_set_indices() {
    let mut v: SparseVec<i32, ()> = SparseVec::new();
    v.set(6, -6);
    v.set(1, -1);
    assert_eq!(v[6], -6);
    assert_eq!(v[1], -1);
    v[6] = 60;
    v[1] += 5;
    assert_eq!(v[6], 60);
    assert_eq!(v.get(1), Some(&4));
    assert_eq!(v.count(), 2);
}

#[test]
fn reserve_keeps_contents_and_makes_room() {
    let mut v: SparseVec<u16, ()> = SparseVec::new();
    v.set(2, 200);
    v.set(1, 100);
    v.reserve(50);
    assert_eq!(v.count(), 2);
    assert_eq!(v.get(1), Some(&100));
    assert_eq!(v.get(2), Some(&200));
    let (indices, values, _) = v.into_parts();
    assert!(indices.capacity() >= 52);
    assert!(values.capacity() >= 52);
    assert_eq!(indices, vec![1, 2]);
    assert_eq!(values, vec![100, 200]);
}

#[test]
fn reserve_zero_changes_nothing() {
    let mut v: SparseVec<u16, ()> = SparseVec::new();
    v.reserve(0);
    assert!(v.is_empty());
    v.set(1, 1);
    v.reserve(0);
    assert_eq!(v.count(), 1);
}

#[test]
fn parts_round_trip() {
    let mut v: SparseVec<&'static str, u32> = SparseVec::new_in(77);
    v.set(12, "twelve");
    v.set(4, "four");
    v.set(8, "eight");
    let copy = v.clone();

    let (indices, values, allocator) = v.into_parts();
    assert_eq!(indices, vec![4, 8, 12]);
    assert_eq!(values, vec!["four", "eight", "twelve"]);
    assert_eq!(allocator, 77);

    let back = SparseVec::from_parts(indices, values, allocator);
    assert!(back == copy);
    assert_eq!(back.count(), 3);
    assert_eq!(back.get(8), Some(&"eight"));
    let (indices, values, allocator) = back.into_parts();
    assert_eq!(indices, vec![4, 8, 12]);
    assert_eq!(values, vec!["four", "eight", "twelve"]);
    assert_eq!(allocator, 77);
}

#[test]
fn from_parts_checked_accepts_ascending_parallel_arrays() {
    let made = SparseVec::from_parts_checked(vec![1, 5, 9], vec!['a', 'b', 'c'], ());
    match made {
        Ok(v) => {
            assert_eq!(v.count(), 3);
            assert_eq!(v.get(5), Some(&'b'));
            assert_eq!(v.get(2), None);
        },
        Err(_) => panic!("the parts form a container"),
    }
    let empty = SparseVec::<u8, ()>::from_parts_checked(vec![], vec![], ());
    assert!(empty.is_ok());
}

#[test]
fn from_parts_checked_hands_back_what_it_refuses() {
    let unordered = SparseVec::from_parts_checked(vec![5, 1], vec!['a', 'b'], 1u8);
    match unordered {
        Ok(_) => panic!("the indices descend"),
        Err(parts) => assert_eq!(parts, (vec![5, 1], vec!['a', 'b'], 1u8)),
    }
    let repeated = SparseVec::from_parts_checked(vec![1, 1], vec!['a', 'b'], 2u8);
    match repeated {
        Ok(_) => panic!("an index occurs twice"),
        Err(parts) => assert_eq!(parts, (vec![1, 1], vec!['a', 'b'], 2u8)),
    }
    let uneven = SparseVec::from_parts_checked(vec![1, 2], vec!['a'], 3u8);
    match uneven {
        Ok(_) => panic!("the arrays differ in length"),
        Err(parts) => assert_eq!(parts, (vec![1, 2], vec!['a'], 3u8)),
    }
}

#[test]
fn equality_is_reflexive_and_symmetric() {
    let mut a: SparseVec<u32, ()> = SparseVec::new();
    let mut b: SparseVec<u32, ()> = SparseVec::new();
    assert!(a == a);
    assert!(a == b);
    a.set(3, 30);
    a.set(1, 10);
    assert!(a == a);
    assert!(a != b);
    assert!(b != a);
    b.set(1, 10);
    assert!(a != b);
    b.set(3, 30);
    assert!(a == b);
    assert!(b == a);
    b.set(3, 31);
    assert!(a != b);
    assert!(b != a);
    b.set(3, 30);
    b.set(4, 0);
    assert!(a != b);
}

#[test]
fn equality_ignores_allocator_and_capacity() {
    let mut a: SparseVec<u32, u8> = SparseVec::new_in(1);
    let mut b: SparseVec<u32, &str> = SparseVec::with_capacity_in(64, "other");
    let mut c: SparseVec<u32, u8> = SparseVec::new_in(2);
    for (i, x) in [(9usize, 90u32), (2, 20), (5, 50)] {
        a.set(i, x);
    }
    for (i, x) in [(2usize, 20u32), (5, 50), (9, 90)] {
        b.set(i, x);
        c.set(i, x);
    }
    assert!(a == b);
    assert!(b == a);
    assert!(a == c);
    b.reserve(100);
    assert!(a == b);
}

#[test]
fn equality_compares_indices_not_only_values() {
    let mut a: SparseVec<u32, ()> = SparseVec::new();
    let mut b: SparseVec<u32, ()> = SparseVec::new();
    a.set(1, 7);
    b.set(2, 7);
    assert!(a != b);
}

#[test]
fn clone_is_equal_and_independent() {
    let mut a: SparseVec<String, u8> = SparseVec::new_in(5);
    a.set(2, String::from("two"));
    a.set(1, String::from("one"));
    let b = a.clone();
    assert!(a == b);
    a.set(1, String::from("uno"));
    assert!(a != b);
    assert_eq!(b.get(1), Some(&String::from("one")));
    let (_, _, allocator) = b.into_parts();
    assert_eq!(allocator, 5);
}
