use clickthrough::filter::indices_where;

#[test]
fn indices_where_picks_true_positions() {
    let mask = vec![false, true, true, false, true];
    assert_eq!(indices_where(&mask), vec![1usize, 2, 4]);
}

#[test]
fn indices_where_empty_mask() {
    let mask: Vec<bool> = Vec::new();
    assert_eq!(indices_where(&mask), Vec::<usize>::new());
}

#[test]
fn indices_where_all_false() {
    let mask = vec![false, false, false];
    assert_eq!(indices_where(&mask), Vec::<usize>::new());
}

#[test]
fn indices_where_all_true() {
    let mask = vec![true, true];
    assert_eq!(indices_where(&mask), vec![0usize, 1]);
}
