use stratepig::board::{flip_board, flip_tile, get_adjacent, get_column, get_scout, pig_in_path, Piece};
use stratepig::pig::Pig;

fn same_set(result: &[u8], expected: &[u8]) -> bool {
    result.len() == expected.len() && result.iter().all(|x| expected.contains(x))
}

#[test]
fn board_check_scout_path() {
    let tests: Vec<u8> = vec![18, 26, 40, 46, 63];
    let solutions: Vec<Vec<u8>> = vec![
        vec![8, 11, 12, 13, 14, 15, 16, 17, 19, 20, 28, 38],
        vec![6, 16, 21, 22, 23, 24, 25, 27, 28, 29, 30, 36, 46, 56, 66, 76, 86, 96],
        vec![10, 20, 30, 31, 32, 33, 34, 35, 36, 37, 38, 39, 50, 60, 70, 80, 90, 100],
        vec![6, 16, 26, 36, 45, 56, 66, 76, 86, 96],
        vec![61, 62, 64, 65, 66, 67, 68, 69, 70, 73, 83, 93],
    ];
    for (index, test) in tests.into_iter().enumerate() {
        let result = get_scout(test);
        assert!(same_set(&result, &solutions[index]));
    }
}

#[test]
fn board_check_regular_path() {
    let tests: Vec<u8> = vec![1, 8, 10, 18, 33, 56, 100];
    let solutions: Vec<Vec<u8>> = vec![
        vec![2, 11],
        vec![7, 9, 18],
        vec![9, 20],
        vec![8, 17, 19, 28],
        vec![23, 32, 34],
        vec![46, 55, 66],
        vec![90, 99],
    ];
    for (index, test) in tests.into_iter().enumerate() {
        let result = get_adjacent(test);
        assert!(same_set(&result, &solutions[index]));
    }
}

#[test]
fn adjacent_edge_tile_does_not_wrap() {
    let result = get_adjacent(10);
    assert!(result.contains(&20));
    assert!(result.contains(&9));
    assert!(!result.contains(&11));
    let left = get_adjacent(11);
    assert!(!left.contains(&10));
}

#[test]
fn adjacent_never_water_or_off_board() {
    for t in 1..=100u8 {
        for u in get_adjacent(t) {
            assert!((1..=100).contains(&u));
            assert!(![43, 44, 47, 48, 53, 54, 57, 58].contains(&u));
            let (ct, cu) = (get_column(t), get_column(u));
            assert!(!(ct == 1 && cu == 10) && !(ct == 10 && cu == 1));
        }
    }
}

#[test]
fn scout_reach_at_forty() {
    let expected = vec![10, 20, 30, 31, 32, 33, 34, 35, 36, 37, 38, 39, 50, 60, 70, 80, 90, 100];
    assert!(same_set(&get_scout(40), &expected));
}

#[test]
fn scout_reach_at_forty_six() {
    let expected = vec![6, 16, 26, 36, 45, 56, 66, 76, 86, 96];
    assert!(same_set(&get_scout(46), &expected));
}

#[test]
fn scout_reach_excludes_own_tile_and_water() {
    for t in 1..=100u8 {
        let reach = get_scout(t);
        assert!(!reach.contains(&t));
        for u in reach {
            assert!(![43, 44, 47, 48, 53, 54, 57, 58].contains(&u));
        }
    }
}

#[test]
fn flip_tile_twice_is_identity() {
    assert_eq!(flip_tile(1), 100);
    assert_eq!(flip_tile(33), 68);
    for t in 0..=100u8 {
        assert_eq!(flip_tile(flip_tile(t)), t);
    }
}

#[test]
fn flip_board_keeps_kind_and_id() {
    let board = vec![Piece::new(Pig::Scout, 12), Piece::new(Pig::Flag, 40)];
    let flipped = flip_board(&board);
    assert_eq!(flipped[0].location, 89);
    assert_eq!(flipped[0].id, 12);
    assert_eq!(flipped[0].pig, Pig::Scout);
    assert_eq!(flipped[1].location, 61);
}

#[test]
fn path_blocking() {
    let board = vec![Piece::new(Pig::Bomb, 35)];
    assert!(pig_in_path(&board, 31, 38));
    assert!(!pig_in_path(&board, 31, 34));
    assert!(pig_in_path(&board, 5, 65));
    assert!(!pig_in_path(&board, 6, 66));
    assert!(!pig_in_path(&board, 31, 45));
}

#[test]
fn column_numbers() {
    assert_eq!(get_column(10), 10);
    assert_eq!(get_column(11), 1);
    assert_eq!(get_column(57), 7);
}
