use sparse_vec::order::{is_strictly_ascending, search};

#[test]
fn search_finds_present_indices() {
    let indices = [1usize, 3, 5, 8, 13];
    assert_eq!(search(&indices, 1), Ok(0));
    assert_eq!(search(&indices, 3), Ok(1));
    assert_eq!(search(&indices, 5), Ok(2));
    assert_eq!(search(&indices, 8), Ok(3));
    assert_eq!(search(&indices, 13), Ok(4));
}

#[test]
fn search_gives_the_insertion_point_of_absent_indices() {
    let indices = [1usize, 3, 5, 8, 13];
    assert_eq!(search(&indices, 0), Err(0));
    assert_eq!(search(&indices, 2), Err(1));
    assert_eq!(search(&indices, 4), Err(2));
    assert_eq!(search(&indices, 7), Err(3));
    assert_eq!(search(&indices, 9), Err(4));
    assert_eq!(search(&indices, 14), Err(5));
    assert_eq!(search(&indices, usize::MAX), Err(5));
}

#[test]
fn search_in_empty_and_single_slices() {
    let none: [usize; 0] = [];
    assert_eq!(search(&none, 0), Err(0));
    assert_eq!(search(&none, 17), Err(0));
    assert_eq!(search(&[4], 4), Ok(0));
    assert_eq!(search(&[4], 3), Err(0));
    assert_eq!(search(&[4], 5), Err(1));
}

#[test]
fn search_at_the_ends_of_the_index_range() {
    let indices = [0usize, usize::MAX];
    assert_eq!(search(&indices, 0), Ok(0));
    assert_eq!(search(&indices, usize::MAX), Ok(1));
    assert_eq!(search(&indices, 1), Err(1));
    assert_eq!(search(&indices, usize::MAX - 1), Err(1));
}

#[test]
fn search_agrees_with_a_linear_count() {
    let indices: Vec<usize> = (0..300).map(|i| i * 7 + 3).collect();
    for index in 0..2200usize {
        let below = indices.iter().filter(|k| **k < index).count();
        let expected = if indices.contains(&index) { Ok(below) } else { Err(below) };
        assert_eq!(search(&indices, index), expected);
    }
}

#[test]
fn ascending_slices_are_recognised() {
    let none: [usize; 0] = [];
    assert!(is_strictly_ascending(&none));
    assert!(is_strictly_ascending(&[7]));
    assert!(is_strictly_ascending(&[0, 1]));
    assert!(is_strictly_ascending(&[0, 1, 2, 10, usize::MAX]));
}

#[test]
fn repeated_or_descending_slices_are_refused() {
    assert!(!is_strictly_ascending(&[1, 1]));
    assert!(!is_strictly_ascending(&[2, 1]));
    assert!(!is_strictly_ascending(&[0, 1, 2, 2]));
    assert!(!is_strictly_ascending(&[0, 5, 4, 6]));
    assert!(!is_strictly_ascending(&[3, 0, 1, 2]));
    assert!(!is_strictly_ascending(&[usize::MAX, 0]));
}
