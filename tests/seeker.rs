use chart_automation::seeker::{Epoch, Seeker};
use chart_automation::utils::ONE;

fn seeker() -> Seeker<i64> {
    Seeker::new(vec![ONE, 2 * ONE, 2 * ONE, 5 * ONE])
}

#[test]
fn seeker_walks_forward() {
    let mut s = seeker();
    assert_eq!(s.current(), Ok(&ONE));
    assert_eq!(s.previous(), None);
    assert_eq!(s.next(), Some(&(2 * ONE)));
    assert_eq!(s.seek(0), 0);
    assert_eq!(s.seek(2 * ONE), 3);
    assert_eq!(s.current(), Ok(&(5 * ONE)));
    assert_eq!(s.previous(), Some(&(2 * ONE)));
    assert_eq!(s.next(), None);
    // never moves back
    assert_eq!(s.seek(ONE), 3);
    assert_eq!(s.seek(9 * ONE), 4);
    assert_eq!(s.current(), Err(&(5 * ONE)));
}

#[test]
fn seeker_jumps_both_ways() {
    let mut s = seeker();
    assert_eq!(s.jump(9 * ONE), 4);
    assert_eq!(s.jump(3 * ONE / 2), 1);
    assert_eq!(s.current(), Ok(&(2 * ONE)));
    assert_eq!(s.jump(2 * ONE), 3);
    assert_eq!(s.jump(0), 0);
}

#[test]
fn epoch_from_pair() {
    let e: Epoch<u8> = Epoch::from((3 * ONE, 9));
    assert_eq!(e, Epoch { offset: 3 * ONE, val: 9 });
    let mut s = Seeker::new(vec![Epoch::from((0, 'a')), Epoch::from((ONE, 'b'))]);
    assert_eq!(s.jump(ONE / 2), 1);
    assert_eq!(s.previous().map(|e| e.val), Some('a'));
    assert_eq!(s.current().map(|e| e.val), Ok('b'));
}

#[test]
fn single_entry_seeker_has_no_neighbours() {
    let mut s = Seeker::new(vec![ONE]);
    assert_eq!(s.seek(2 * ONE), 1);
    assert_eq!(s.current(), Err(&ONE));
    assert_eq!(s.previous(), None);
    assert_eq!(s.next(), None);
}
