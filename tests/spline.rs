use chart_automation::spline::{atoc_index, ctoa_index};

#[test]
fn anchor_to_curve_index() {
    assert_eq!(atoc_index(0), 0);
    assert_eq!(atoc_index(1), 1);
    assert_eq!(atoc_index(2), 1);
    assert_eq!(atoc_index(3), 2);
    assert_eq!(atoc_index(4), 2);
}

#[test]
fn curve_to_anchor_index() {
    assert_eq!(ctoa_index(0), 0);
    assert_eq!(ctoa_index(1), 1);
    assert_eq!(ctoa_index(2), 3);
    for c in 0..50 {
        assert_eq!(atoc_index(ctoa_index(c)), c);
    }
}
