//! Match ratios as exact fractions, thresholds as fixed-point integers.

use vstd::prelude::*;

verus! {

/// Fixed-point scale: a threshold `x` stands for the number `x / UNIT`.
/// A ratio threshold counts percent points, so 50 % is `50 * UNIT`;
/// a similarity threshold lies between 0 and `UNIT`.
pub const UNIT: i64 = 1_000_000;

/// The greatest ratio threshold: 100 %.
pub const MAX_RATIO: i64 = 100_000_000;

/// The ratio threshold of a query that names none: 50 %.
pub fn default_min_ratio() -> (r: i64)
    ensures
        r == 50 * UNIT,
        valid_min_ratio(r),
{
    50_000_000
}

/// The similarity threshold of a query that names none: 0.
pub fn default_min_similarity() -> (r: i64)
    ensures
        r == 0,
        valid_min_similarity(r),
{
    0
}

/// `x` is a ratio threshold between 0 % and 100 %, bounds included.
pub open spec fn valid_min_ratio(x: i64) -> bool {
    0 <= x <= MAX_RATIO
}

/// `x` is a similarity threshold between 0 and 1, bounds included.
pub open spec fn valid_min_similarity(x: i64) -> bool {
    0 <= x <= UNIT
}

/// Whether `x` is a ratio threshold between 0 % and 100 %.
pub fn is_valid_min_ratio(x: i64) -> (b: bool)
    ensures
        b == valid_min_ratio(x),
{
    0 <= x && x <= MAX_RATIO
}

/// Whether `x` is a similarity threshold between 0 and 1.
pub fn is_valid_min_similarity(x: i64) -> (b: bool)
    ensures
        b == valid_min_similarity(x),
{
    0 <= x && x <= UNIT
}

/// A match ratio: `matched` of `total` characters, that is the percentage
/// `100 * matched / total`.
#[derive(Clone, Copy, Debug, PartialEq, Eq, Structural)]
pub struct Score {
    pub matched: usize,
    pub total: usize,
}

impl Score {
    /// The fraction is defined and lies between 0 and 1: the ratio is a
    /// percentage between 0 and 100.
    pub open spec fn wf(&self) -> bool {
        0 < self.total && self.matched <= self.total
    }

    /// The ratio is 100 %.
    pub open spec fn is_full(&self) -> bool {
        self.matched == self.total
    }

    /// The ratio is 0 %.
    pub open spec fn is_zero(&self) -> bool {
        self.matched == 0
    }

    /// The ratio is `percent` %.
    pub open spec fn is_percent(&self, percent: int) -> bool {
        100 * self.matched == percent * self.total
    }

    /// This ratio is at least `other`.
    pub open spec fn at_least(&self, other: Score) -> bool {
        self.matched * other.total >= other.matched * self.total
    }

    /// This ratio is greater than `other`.
    pub open spec fn exceeds(&self, other: Score) -> bool {
        self.matched * other.total > other.matched * self.total
    }

    /// This ratio is at least the threshold `min_ratio`.
    pub open spec fn meets(&self, min_ratio: i64) -> bool {
        100 * UNIT * self.matched >= min_ratio * self.total
    }

    /// What `of` returns: `matched` of `total`, and 0 % where `total` is 0.
    pub open spec fn spec_of(matched: nat, total: nat) -> Score {
        if total == 0 {
            Score { matched: 0, total: 1 }
        } else {
            Score { matched: matched as usize, total: total as usize }
        }
    }

    /// The ratio 0 %.
    pub fn zero() -> (s: Score)
        ensures
            s == (Score { matched: 0, total: 1 }),
            s.wf(),
            s.is_zero(),
    {
        Score { matched: 0, total: 1 }
    }

    /// The ratio 100 %.
    pub fn full() -> (s: Score)
        ensures
            s == (Score { matched: 1, total: 1 }),
            s.wf(),
            s.is_full(),
    {
        Score { matched: 1, total: 1 }
    }

    /// The ratio of `matched` to `total`; a `total` of 0 gives 0 %.
    pub fn of(matched: usize, total: usize) -> (s: Score)
        requires
            matched <= total,
        ensures
            s == Score::spec_of(matched as nat, total as nat),
            s.wf(),
    {
        if total == 0 {
            Score { matched: 0, total: 1 }
        } else {
            Score { matched, total }
        }
    }

    /// Whether this ratio is greater than `other`.
    pub fn is_above(&self, other: &Score) -> (b: bool)
        ensures
            b == self.exceeds(*other),
    {
        let left: u128 = Score::product(self.matched, other.total);
        let right: u128 = Score::product(other.matched, self.total);
        left > right
    }

    /// Whether this ratio reaches the threshold `min_ratio`.
    pub fn reaches(&self, min_ratio: i64) -> (b: bool)
        ensures
            b == self.meets(min_ratio),
    {
        let m: i128 = self.matched as i128;
        let t: i128 = self.total as i128;
        let r: i128 = min_ratio as i128;
        assert(-0x8000_0000_0000_0000 <= r < 0x8000_0000_0000_0000);
        assert(0 <= t <= 0xffff_ffff_ffff_ffff);
        assert(0 <= 100_000_000 * m <= 100_000_000 * 0xffff_ffff_ffff_ffff);
        assert(-0x8000_0000_0000_0000 * 0xffff_ffff_ffff_ffff <= r * t
            <= 0x8000_0000_0000_0000 * 0xffff_ffff_ffff_ffff) by (nonlinear_arith)
            requires
                -0x8000_0000_0000_0000 <= r < 0x8000_0000_0000_0000,
                0 <= t <= 0xffff_ffff_ffff_ffff,
        ;
        100_000_000 * m >= r * t
    }

    /// `a * b`, which fits in 128 bits.
    fn product(a: usize, b: usize) -> (p: u128)
        ensures
            p == a * b,
    {
        let x: u128 = a as u128;
        let y: u128 = b as u128;
        assert(x * y <= 0xffff_ffff_ffff_ffff * 0xffff_ffff_ffff_ffff) by (nonlinear_arith)
            requires
                0 <= x <= 0xffff_ffff_ffff_ffff,
                0 <= y <= 0xffff_ffff_ffff_ffff,
        ;
        x * y
    }
}

/// The order of ratios is transitive.
pub proof fn lemma_at_least_transitive(a: Score, b: Score, c: Score)
    requires
        a.wf(),
        b.wf(),
        c.wf(),
        a.at_least(b),
        b.at_least(c),
    ensures
        a.at_least(c),
{
    let (am, at) = (a.matched as int, a.total as int);
    let (bm, bt) = (b.matched as int, b.total as int);
    let (cm, ct) = (c.matched as int, c.total as int);
    assert(am * ct >= cm * at) by (nonlinear_arith)
        requires
            am * bt >= bm * at,
            bm * ct >= cm * bt,
            at > 0,
            bt > 0,
            ct > 0,
            am >= 0,
            bm >= 0,
            cm >= 0,
    {
        assert((am * bt) * ct >= (bm * at) * ct);
        assert((bm * ct) * at >= (cm * bt) * at);
        assert((am * ct) * bt >= (cm * at) * bt);
    }
}

} // verus!
