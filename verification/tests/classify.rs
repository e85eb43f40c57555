use resource_usage_sdk::classify::{
    classify, classify_value, default_cursors, LimitsCursors, Ratio, Severity,
};
use resource_usage_sdk::show::Average;
use resource_usage_sdk::wide::Wide;

fn hundredths(n: u128) -> Average {
    Average { sum: n, count: 100 }
}

#[test]
fn default_cursors_are_eighty_and_hundred_percent() {
    assert_eq!(
        default_cursors(),
        LimitsCursors { danger: Ratio { num: 80, den: 100 }, error: Ratio { num: 100, den: 100 } }
    );
}

#[test]
fn classification_boundaries() {
    let cursors = LimitsCursors { danger: Ratio { num: 8, den: 10 }, error: Ratio { num: 1, den: 1 } };
    for cursors in [cursors, default_cursors()] {
        assert_eq!(classify(hundredths(8000), 100, cursors), Severity::Normal);
        assert_eq!(classify_value(80, 100, cursors), Severity::Normal);
        assert_eq!(classify(hundredths(8001), 100, cursors), Severity::Danger);
        assert_eq!(classify_value(81, 100, cursors), Severity::Danger);
        assert_eq!(classify(hundredths(10000), 100, cursors), Severity::Danger);
        assert_eq!(classify_value(100, 100, cursors), Severity::Danger);
        assert_eq!(classify(hundredths(10001), 100, cursors), Severity::Error);
        assert_eq!(classify_value(101, 100, cursors), Severity::Error);
        assert_eq!(classify_value(0, 100, cursors), Severity::Normal);
    }
}

#[test]
fn classification_of_the_swap_statistics() {
    let cursors = default_cursors();
    let limit = 50_000_000;
    assert_eq!(classify(Average { sum: 170_000_000, count: 5 }, limit, cursors), Severity::Normal);
    assert_eq!(classify_value(10_000_000, limit, cursors), Severity::Normal);
    assert_eq!(classify_value(58_000_000, limit, cursors), Severity::Error);
    assert_eq!(classify_value(46_000_000, limit, cursors), Severity::Danger);
    assert_eq!(classify_value(40_000_000, limit, cursors), Severity::Normal);
    assert_eq!(classify_value(40_000_001, limit, cursors), Severity::Danger);
    assert_eq!(classify_value(50_000_000, limit, cursors), Severity::Danger);
    assert_eq!(classify_value(50_000_001, limit, cursors), Severity::Error);
}

#[test]
fn a_zero_limit_is_no_ceiling() {
    let cursors = default_cursors();
    assert_eq!(classify_value(0, 0, cursors), Severity::Normal);
    assert_eq!(classify_value(1, 0, cursors), Severity::Normal);
    assert_eq!(classify_value(u128::MAX, 0, cursors), Severity::Normal);
    assert_eq!(classify(Average { sum: 7, count: 2 }, 0, cursors), Severity::Normal);
}

#[test]
fn classification_does_not_overflow() {
    let cursors = LimitsCursors {
        danger: Ratio { num: u64::MAX - 1, den: u64::MAX },
        error: Ratio { num: u64::MAX, den: u64::MAX },
    };
    let limit = u64::MAX;
    let count = usize::MAX;
    let at_limit = Average { sum: (limit as u128) * (count as u128), count };
    assert_eq!(classify(at_limit, limit, cursors), Severity::Danger);
    let at_danger = Average { sum: at_limit.sum - count as u128, count };
    assert_eq!(classify(at_danger, limit, cursors), Severity::Normal);
    let over_danger = Average { sum: at_danger.sum + 1, count };
    assert_eq!(classify(over_danger, limit, cursors), Severity::Danger);
    let above = Average { sum: at_limit.sum + 1, count };
    assert_eq!(classify(above, limit, cursors), Severity::Error);
    assert_eq!(classify(Average { sum: u128::MAX, count: 1 }, limit, cursors), Severity::Error);
    assert_eq!(classify(Average { sum: 0, count }, limit, cursors), Severity::Normal);
}

#[test]
fn cursors_may_be_set() {
    let cursors = LimitsCursors { danger: Ratio { num: 1, den: 2 }, error: Ratio { num: 3, den: 4 } };
    assert_eq!(classify_value(50, 100, cursors), Severity::Normal);
    assert_eq!(classify_value(51, 100, cursors), Severity::Danger);
    assert_eq!(classify_value(75, 100, cursors), Severity::Danger);
    assert_eq!(classify_value(76, 100, cursors), Severity::Error);
    assert_eq!(classify(Average { sum: 151, count: 2 }, 100, cursors), Severity::Error);
    assert_eq!(classify(Average { sum: 150, count: 2 }, 100, cursors), Severity::Danger);
}

#[test]
fn wide_product_is_exact() {
    assert_eq!(Wide::product(0, 0), Wide { hi: 0, lo: 0 });
    assert_eq!(Wide::product(6, 7), Wide { hi: 0, lo: 42 });
    assert_eq!(Wide::product(1 << 64, 1), Wide { hi: 1, lo: 0 });
    assert_eq!(Wide::product(u64::MAX as u128, u64::MAX), Wide { hi: u64::MAX as u128 - 1, lo: 1 });
    assert_eq!(
        Wide::product(u128::MAX, u64::MAX),
        Wide { hi: u128::MAX - u64::MAX as u128 - 1, lo: 1 }
    );
    assert_eq!(Wide::product(u128::MAX, 2), Wide { hi: (1 << 65) - 1, lo: u64::MAX - 1 });
}

#[test]
fn wide_numbers_compare_by_value() {
    let small = Wide { hi: 0, lo: u64::MAX };
    let large = Wide { hi: 1, lo: 0 };
    assert!(large.exceeds(&small));
    assert!(!small.exceeds(&large));
    assert!(!small.exceeds(&small));
    assert!(Wide { hi: 5, lo: 2 }.exceeds(&Wide { hi: 5, lo: 1 }));
    assert!(!Wide { hi: 5, lo: 1 }.exceeds(&Wide { hi: 5, lo: 2 }));
}
