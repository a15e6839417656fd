use sota_save::exp_table::{find_min, ExpTable};

fn thresholds() -> Vec<i64> {
    let mut v = vec![100, 250, 500];
    for i in 3..200 {
        v.push(500 + (i as i64 - 2) * 1000);
    }
    v
}

#[test]
fn floor_lookup_takes_the_greatest_threshold_not_above() {
    let table = ExpTable::new(thresholds()).unwrap();
    assert_eq!(table.level_of(250), Some(2));
    assert_eq!(table.level_of(300), Some(2));
    assert_eq!(table.level_of(99), None);
    assert_eq!(table.level_of(100), Some(1));
    assert_eq!(table.level_of(499), Some(2));
    assert_eq!(table.level_of(500), Some(3));
    assert_eq!(table.level_of(i64::MAX), Some(200));
    assert_eq!(table.level_of(i64::MIN), None);
}

#[test]
fn find_min_on_short_tables() {
    assert_eq!(find_min(5, &[]), None);
    assert_eq!(find_min(5, &[5]), Some(0));
    assert_eq!(find_min(4, &[5]), None);
    assert_eq!(find_min(6, &[5]), Some(0));
    assert_eq!(find_min(7, &[1, 3, 5, 7, 9]), Some(3));
    assert_eq!(find_min(8, &[1, 3, 5, 7, 9]), Some(3));
    assert_eq!(find_min(0, &[1, 3, 5, 7, 9]), None);
    assert_eq!(find_min(100, &[1, 3, 5, 7, 9]), Some(4));
    assert_eq!(find_min(-3, &[-5, -3, -3, -3, 0]), Some(3));
}

#[test]
fn threshold_and_level_are_inverse() {
    let values = thresholds();
    let table = ExpTable::new(values.clone()).unwrap();
    for lvl in 1..=200 {
        assert_eq!(table.threshold(lvl), values[lvl as usize - 1]);
        assert_eq!(table.level_of(table.threshold(lvl)), Some(lvl));
    }
}

#[test]
fn equal_thresholds_give_the_higher_level() {
    let mut values = thresholds();
    values[1] = 100;
    let table = ExpTable::new(values).unwrap();
    assert_eq!(table.level_of(table.threshold(1)), Some(2));
}

#[test]
fn a_table_has_two_hundred_ascending_thresholds() {
    assert!(ExpTable::new(thresholds()).is_some());
    assert!(ExpTable::new(vec![]).is_none());
    assert!(ExpTable::new(vec![0; 199]).is_none());
    assert!(ExpTable::new(vec![0; 201]).is_none());
    assert!(ExpTable::new(vec![0; 200]).is_some());
    let mut values = thresholds();
    values[150] = values[149] - 1;
    assert!(ExpTable::new(values).is_none());
    let table = ExpTable::new(thresholds()).unwrap();
    assert_eq!(table.thresholds(), &thresholds()[..]);
}
