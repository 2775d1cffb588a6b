use chart_automation::utils::{
    after, before_or_at, find_index_through, is_sorted, lerp, quantized_floor, quantized_remainder,
    seek, seek_run, unit_interval,
    UnitIntervalChecker, ONE,
};

fn numbers() -> Vec<i64> {
    [1, 2, 3, 4, 5, 6, 7, 7, 8, 9, 10].into_iter().map(|n| n * ONE).collect()
}

#[test]
fn slice_ext_before_or_at() {
    assert_eq!(before_or_at(numbers().as_slice(), 0), [] as [i64; 0]);
    assert_eq!(before_or_at(numbers().as_slice(), 2 * ONE), &[ONE, 2 * ONE]);
}

#[test]
fn slice_ext_after() {
    assert_eq!(after(numbers().as_slice(), 10 * ONE), [] as [i64; 0]);
    assert_eq!(after(numbers().as_slice(), 15 * ONE / 2), &[8 * ONE, 9 * ONE, 10 * ONE]);
}

#[test]
fn before_or_at_and_after_on_empty_table() {
    let empty: Vec<i64> = Vec::new();
    assert_eq!(before_or_at(empty.as_slice(), ONE), [] as [i64; 0]);
    assert_eq!(after(empty.as_slice(), ONE), [] as [i64; 0]);
}

#[test]
fn seek_finds_last_at_or_before() {
    let table = numbers();
    // before the first entry: the first
    assert_eq!(seek(table.as_slice(), 0), 0);
    assert_eq!(seek(table.as_slice(), ONE), 0);
    assert_eq!(seek(table.as_slice(), 3 * ONE / 2), 0);
    assert_eq!(seek(table.as_slice(), 2 * ONE), 1);
    // after the last entry: the last
    assert_eq!(seek(table.as_slice(), 100 * ONE), 10);
}

#[test]
fn seek_tie_break_takes_later_entry() {
    let table = numbers();
    // 7 stands at indices 6 and 7
    assert_eq!(seek(table.as_slice(), 7 * ONE), 7);
    assert_eq!(find_index_through(table.as_slice(), 7 * ONE, 0), 7);
    assert_eq!(find_index_through(table.as_slice(), 7 * ONE, 6), 7);
    let same = vec![ONE, ONE, ONE];
    assert_eq!(seek(same.as_slice(), ONE), 2);
    assert_eq!(find_index_through(same.as_slice(), ONE, 0), 2);
}

#[test]
fn cursor_seeking_matches_fresh_search() {
    let table: Vec<i64> = [0, 1, 1, 2, 3, 5, 8, 8, 8, 13, 21, 34].into_iter().map(|n| n * ONE).collect();
    let queries: Vec<i64> = vec![-ONE, 0, ONE / 2, ONE, 2 * ONE, 5 * ONE, 7 * ONE, 8 * ONE, 30 * ONE, 34 * ONE, 99 * ONE];
    let mut cursor: usize = 0;
    for q in queries {
        let cached = find_index_through(table.as_slice(), q, cursor);
        assert_eq!(cached, seek(table.as_slice(), q));
        cursor = cached;
    }
    // a cursor that lies past the query falls back to the full search
    assert_eq!(find_index_through(table.as_slice(), 2 * ONE, 11), 3);
    // a cursor far behind the query falls back too
    assert_eq!(find_index_through(table.as_slice(), 21 * ONE, 0), 10);
    // a cursor beyond the table
    assert_eq!(find_index_through(table.as_slice(), 5 * ONE, 50), 5);
}

#[test]
fn lerp_exact_values() {
    assert_eq!(lerp(0, 4 * ONE, ONE / 4), ONE);
    assert_eq!(lerp(2 * ONE, ONE, ONE / 2), 3 * ONE / 2);
    assert_eq!(lerp(5, 9, 0), 5);
    assert_eq!(lerp(5, 9, ONE), 9);
    // rounds down
    assert_eq!(lerp(0, 1, ONE / 2), 0);
    assert_eq!(lerp(1, 0, ONE / 2), 0);
}

#[test]
fn unit_interval_exact_values() {
    assert_eq!(unit_interval(3 * ONE, 2 * ONE, 6 * ONE), ONE / 4);
    assert_eq!(unit_interval(2 * ONE, 2 * ONE, 6 * ONE), 0);
    assert_eq!(unit_interval(6 * ONE, 2 * ONE, 6 * ONE), ONE);
}

#[test]
fn sortedness_and_domains() {
    assert!(is_sorted(numbers().as_slice()));
    assert!(is_sorted(Vec::<i64>::new().as_slice()));
    assert!(!is_sorted(vec![2, 1].as_slice()));
    assert!(UnitIntervalChecker::check(0));
    assert!(UnitIntervalChecker::check(ONE));
    assert!(!UnitIntervalChecker::check(ONE + 1));
    assert!(!UnitIntervalChecker::check(-1));
}

#[test]
fn seek_run_matches_independent_searches() {
    let table: Vec<i64> = [0, 1, 1, 2, 3, 5, 8, 8, 8, 13, 21, 34].into_iter().map(|n| n * ONE).collect();
    let queries: Vec<i64> =
        vec![-ONE, 0, ONE, ONE, 3 * ONE / 2, 4 * ONE, 8 * ONE, 9 * ONE, 34 * ONE, 40 * ONE];
    let run = seek_run(table.as_slice(), &queries, 0);
    let fresh: Vec<usize> = queries.iter().map(|q| seek(table.as_slice(), *q)).collect();
    assert_eq!(run, fresh);
    assert_eq!(run, vec![0, 0, 2, 2, 2, 4, 8, 8, 11, 11]);
}

#[test]
fn quantized_floor_and_remainder() {
    // grid of step 2 through 1: ..., -1, 1, 3, 5, ...
    assert_eq!(quantized_floor(4 * ONE, 2 * ONE, ONE), 3 * ONE);
    assert_eq!(quantized_floor(3 * ONE, 2 * ONE, ONE), 3 * ONE);
    assert_eq!(quantized_floor(0, 2 * ONE, ONE), -ONE);
    assert_eq!(quantized_remainder(4 * ONE, 2 * ONE, ONE), ONE);
    assert_eq!(quantized_remainder(ONE / 2, 2 * ONE, ONE), -ONE / 2);
    assert_eq!(quantized_remainder(-4 * ONE, 3 * ONE, 0), -ONE);
    // a zero period leaves the value alone
    assert_eq!(quantized_floor(7, 0, 3), 7);
    assert_eq!(quantized_remainder(7, 0, 3), 7);
}
