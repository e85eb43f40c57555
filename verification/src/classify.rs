use vstd::prelude::*;
use crate::show::Average;
use crate::wide::Wide;

verus! {

/// A share of a ceiling as a fraction: `num / den`, so 80 over 100 for 80%.
#[derive(Debug, Clone, Copy, PartialEq, Eq)]
pub struct Ratio {
    pub num: u64,
    pub den: u64,
}

/// The two shares of a ceiling above which a value is marked.
#[derive(Debug, Clone, Copy, PartialEq, Eq)]
pub struct LimitsCursors {
    /// Above this share a value is in danger.
    pub danger: Ratio,
    /// Above this share a value is in error.
    pub error: Ratio,
}

/// How a value stands to its ceiling.
#[derive(Debug, Clone, Copy, PartialEq, Eq, Structural)]
pub enum Severity {
    Normal,
    Danger,
    Error,
}

/// Danger above 80% of the ceiling, error above all of it.
pub open spec fn standard_cursors() -> LimitsCursors {
    LimitsCursors { danger: Ratio { num: 80, den: 100 }, error: Ratio { num: 100, den: 100 } }
}

/// Danger above 80% of the ceiling, error above all of it.
pub fn default_cursors() -> (r: LimitsCursors)
    ensures
        r == standard_cursors(),
{
    LimitsCursors { danger: Ratio { num: 80, den: 100 }, error: Ratio { num: 100, den: 100 } }
}

/// Whether `value` is more than the share `ratio` of `limit`: with `value`
/// being `sum / count` and the share `num / den`, whether
/// `sum / count > limit * num / den`, stated without division.
pub open spec fn over(value: Average, limit: u64, ratio: Ratio) -> bool {
    value.sum * ratio.den > ratio.num * limit * value.count
}

/// How `value` stands to `limit`: in error where it is over the error
/// share, else in danger where it is over the danger share, else normal.
/// A limit of zero is no ceiling, and nothing is over it.
pub open spec fn severity(value: Average, limit: u64, cursors: LimitsCursors) -> Severity {
    if limit == 0 {
        Severity::Normal
    } else if over(value, limit, cursors.error) {
        Severity::Error
    } else if over(value, limit, cursors.danger) {
        Severity::Danger
    } else {
        Severity::Normal
    }
}

/// A single figure as the average of itself.
pub open spec fn single(value: u128) -> Average {
    Average { sum: value, count: 1 }
}

/// The three marks in their order: normal, danger, error.
pub open spec fn rank(severity: Severity) -> nat {
    match severity {
        Severity::Normal => 0,
        Severity::Danger => 1,
        Severity::Error => 2,
    }
}

/// Whether the average `a` is no larger than the average `b`.
pub open spec fn no_larger(a: Average, b: Average) -> bool {
    a.sum * b.count <= b.sum * a.count
}

/// Where an average is over a share of the ceiling, so is every average
/// that is no smaller.
pub proof fn lemma_over_monotone(a: Average, b: Average, limit: u64, ratio: Ratio)
    requires
        a.count > 0,
        b.count > 0,
        no_larger(a, b),
        over(a, limit, ratio),
    ensures
        over(b, limit, ratio),
{
    let x = a.sum as int;
    let y = b.sum as int;
    let m = a.count as int;
    let n = b.count as int;
    let d = ratio.den as int;
    let t = ratio.num * limit;
    assert(y * d > t * n) by (nonlinear_arith)
        requires
            m > 0,
            n > 0,
            d >= 0,
            t >= 0,
            x >= 0,
            y >= 0,
            x * n <= y * m,
            x * d > t * m,
    {
        assert(d > 0);
        assert((x * d) * n >= (t * m + 1) * n);
        assert((y * m) * d >= (x * n) * d);
        assert((x * n) * d == (x * d) * n);
        assert((y * d) * m == (y * m) * d);
        assert((t * n) * m == (t * m) * n);
        assert((y * d) * m > (t * n) * m);
    }
    assert(ratio.num * limit * b.count == t * n);
}

/// A larger average is never marked lower than a smaller one.
pub proof fn lemma_severity_monotone(a: Average, b: Average, limit: u64, cursors: LimitsCursors)
    requires
        a.count > 0,
        b.count > 0,
        no_larger(a, b),
    ensures
        rank(severity(a, limit, cursors)) <= rank(severity(b, limit, cursors)),
{
    if limit != 0 {
        if over(a, limit, cursors.error) {
            lemma_over_monotone(a, b, limit, cursors.error);
        }
        if over(a, limit, cursors.danger) {
            lemma_over_monotone(a, b, limit, cursors.danger);
        }
    }
}

/// A value is over a share of the ceiling only if it is more than that
/// share: a value of exactly the share is not over it.
pub proof fn lemma_at_the_share_is_not_over(value: Average, limit: u64, ratio: Ratio)
    requires
        value.sum * ratio.den == ratio.num * limit * value.count,
    ensures
        !over(value, limit, ratio),
{
}

fn is_over(value: Average, limit: u64, ratio: Ratio) -> (r: bool)
    ensures
        r == over(value, limit, ratio),
{
    let left = Wide::product(value.sum, ratio.den);
    assert(ratio.num * limit <= 0xffff_ffff_ffff_ffff * 0xffff_ffff_ffff_ffff) by (nonlinear_arith)
        requires
            ratio.num <= 0xffff_ffff_ffff_ffff,
            limit <= 0xffff_ffff_ffff_ffff,
    ;
    let share: u128 = ratio.num as u128 * limit as u128;
    let right = Wide::product(share, value.count as u64);
    left.exceeds(&right)
}

/// How the average `value` stands to `limit`.
pub fn classify(value: Average, limit: u64, cursors: LimitsCursors) -> (r: Severity)
    ensures
        r == severity(value, limit, cursors),
{
    if limit == 0 {
        Severity::Normal
    } else if is_over(value, limit, cursors.error) {
        Severity::Error
    } else if is_over(value, limit, cursors.danger) {
        Severity::Danger
    } else {
        Severity::Normal
    }
}

/// How the single figure `value` stands to `limit`.
pub fn classify_value(value: u128, limit: u64, cursors: LimitsCursors) -> (r: Severity)
    ensures
        r == severity(single(value), limit, cursors),
{
    classify(Average { sum: value, count: 1 }, limit, cursors)
}

} // verus!
