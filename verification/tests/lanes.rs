use snippets_loader::lanes::{column_centre, column_of, is_permutation};
use snippets_loader::objects::PLAYFIELD_WIDTH;

#[test]
fn column_of_four_lanes() {
    assert_eq!(PLAYFIELD_WIDTH, 512);
    assert_eq!(column_of(0, 4), 0);
    assert_eq!(column_of(64, 4), 0);
    assert_eq!(column_of(127, 4), 0);
    assert_eq!(column_of(128, 4), 1);
    assert_eq!(column_of(192, 4), 1);
    assert_eq!(column_of(320, 4), 2);
    assert_eq!(column_of(448, 4), 3);
    assert_eq!(column_of(511, 4), 3);
}

#[test]
fn column_of_coordinates_off_the_playfield() {
    assert_eq!(column_of(-1, 4), 0);
    assert_eq!(column_of(i32::MIN, 4), 0);
    assert_eq!(column_of(512, 4), 0);
    assert_eq!(column_of(700, 4), 1);
    assert_eq!(column_of(i32::MAX, 4), 3);
    assert_eq!(column_of(i32::MAX, usize::MAX), 18_410_715_276_690_587_647);
}

#[test]
fn column_of_other_lane_counts() {
    assert_eq!(column_of(300, 1), 0);
    assert_eq!(column_of(36, 7), 0);
    assert_eq!(column_of(73, 7), 0);
    assert_eq!(column_of(74, 7), 1);
    assert_eq!(column_of(475, 7), 6);
    assert_eq!(column_of(256, 10), 5);
}

#[test]
fn centres_of_the_lanes() {
    assert_eq!(column_centre(0, 4), 64);
    assert_eq!(column_centre(1, 4), 192);
    assert_eq!(column_centre(2, 4), 320);
    assert_eq!(column_centre(3, 4), 448);
    assert_eq!(column_centre(0, 1), 256);
    assert_eq!(column_centre(0, 7), 36);
    assert_eq!(column_centre(6, 7), 475);
    assert_eq!(column_centre(4, 10), 230);
    assert_eq!(column_centre(usize::MAX - 1, usize::MAX), 511);
}

#[test]
fn centre_lies_in_its_own_lane() {
    for lanes in 1..=256usize {
        for lane in 0..lanes {
            assert_eq!(column_of(column_centre(lane, lanes), lanes), lane);
        }
    }
}

#[test]
fn permutations_are_told_apart() {
    assert!(is_permutation(&vec![], 0));
    assert!(is_permutation(&vec![0], 1));
    assert!(is_permutation(&vec![2, 0, 3, 1], 4));
    assert!(!is_permutation(&vec![2, 0, 3, 1], 5));
    assert!(!is_permutation(&vec![2, 0, 3], 4));
    assert!(!is_permutation(&vec![2, 0, 2, 1], 4));
    assert!(!is_permutation(&vec![4, 0, 2, 1], 4));
    assert!(!is_permutation(&vec![0, 0], 2));
    assert!(!is_permutation(&vec![1], 1));
}
