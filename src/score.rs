use crate::data::FitnessValue;
use vstd::prelude::*;

verus! {

/// A fitness score, the rational number `numerator / denominator`; a denominator of 0
/// (with numerator 1) stands for a score above every finite one.
#[derive(Clone, Copy, Debug, PartialEq, Eq, Structural)]
pub struct Score {
    pub numerator: i64,
    pub denominator: u64,
}

impl Score {
    pub open spec fn wf(self) -> bool {
        self.denominator > 0 || self.numerator == 1
    }
}

/// `a` is at most `b`.
pub open spec fn score_le(a: Score, b: Score) -> bool {
    a.numerator * b.denominator <= b.numerator * a.denominator
}

/// `a` is below `b`.
pub open spec fn score_lt(a: Score, b: Score) -> bool {
    a.numerator * b.denominator < b.numerator * a.denominator
}

/// The score of a simulation that let `driving` cars pass and made `waiting` cars wait.
/// With the ratio formula and no car waiting, the score is above every finite one.
pub open spec fn fitness_score(fitness_value: FitnessValue, driving: int, waiting: int) -> Score {
    match fitness_value {
        FitnessValue::Difference => Score { numerator: (driving - waiting) as i64, denominator: 1 },
        FitnessValue::Ratio => if waiting == 0 {
            Score { numerator: 1, denominator: 0 }
        } else {
            Score { numerator: driving as i64, denominator: waiting as u64 }
        },
        FitnessValue::DrivingCars => Score { numerator: driving as i64, denominator: 1 },
        FitnessValue::WaitingCars => Score { numerator: -waiting as i64, denominator: 1 },
    }
}

/// Whether `a` is below `b`.
pub fn less_than(a: &Score, b: &Score) -> (r: bool)
    ensures
        r == score_lt(*a, *b),
{
    proof {
        lemma_product_fits(a.numerator as int, b.denominator as int);
        lemma_product_fits(b.numerator as int, a.denominator as int);
    }
    let left: i128 = (a.numerator as i128) * (b.denominator as i128);
    let right: i128 = (b.numerator as i128) * (a.denominator as i128);
    left < right
}

/// The score of a simulation that let `driving` cars pass and made `waiting` cars wait.
pub fn fitness(fitness_value: FitnessValue, driving: u64, waiting: u64) -> (r: Score)
    requires
        driving <= i64::MAX,
        waiting <= i64::MAX,
    ensures
        r == fitness_score(fitness_value, driving as int, waiting as int),
        r.wf(),
{
    match fitness_value {
        FitnessValue::Difference => Score { numerator: driving as i64 - waiting as i64, denominator: 1 },
        FitnessValue::Ratio => if waiting == 0 {
            Score { numerator: 1, denominator: 0 }
        } else {
            Score { numerator: driving as i64, denominator: waiting }
        },
        FitnessValue::DrivingCars => Score { numerator: driving as i64, denominator: 1 },
        FitnessValue::WaitingCars => Score { numerator: -(waiting as i64), denominator: 1 },
    }
}

proof fn lemma_product_fits(n: int, d: int)
    requires
        i64::MIN <= n <= i64::MAX,
        0 <= d <= u64::MAX,
    ensures
        i128::MIN <= n * d <= i128::MAX,
{
    let (lo, hi, top) = (-0x8000_0000_0000_0000int, 0x7fff_ffff_ffff_ffffint, 0xffff_ffff_ffff_ffffint);
    assert(lo * top <= n * d <= hi * top) by (nonlinear_arith)
        requires
            lo <= n <= hi,
            0 <= d <= top,
            lo < 0,
            hi > 0,
    {
        if n >= 0 {
            assert(n * d <= hi * d);
            assert(hi * d <= hi * top);
        } else {
            assert(n * d >= lo * d);
            assert(lo * d >= lo * top);
        }
    }
}

/// Every score is at most itself.
pub proof fn lemma_score_le_refl(a: Score)
    ensures
        score_le(a, a),
{
}

/// Of two scores, one is at most the other, and a score that is not below another is at
/// least it.
pub proof fn lemma_score_total(a: Score, b: Score)
    ensures
        score_le(a, b) || score_le(b, a),
        !score_lt(a, b) ==> score_le(b, a),
        score_lt(a, b) ==> score_le(a, b),
{
}

/// The order of scores is transitive.
pub proof fn lemma_score_le_trans(a: Score, b: Score, c: Score)
    requires
        a.wf(),
        b.wf(),
        c.wf(),
        score_le(a, b),
        score_le(b, c),
    ensures
        score_le(a, c),
{
    let (an, ad, bn, bd, cn, cd) = (
        a.numerator as int,
        a.denominator as int,
        b.numerator as int,
        b.denominator as int,
        c.numerator as int,
        c.denominator as int,
    );
    if bd == 0 {
        assert(cn * bd == 0) by (nonlinear_arith)
            requires
                bd == 0,
        ;
        assert(cd == 0) by (nonlinear_arith)
            requires
                bn == 1,
                bn * cd <= cn * bd,
                cn * bd == 0,
                cd >= 0,
        ;
        assert(an * cd == 0) by (nonlinear_arith)
            requires
                cd == 0,
        ;
        assert(cn * ad >= 0) by (nonlinear_arith)
            requires
                cn == 1,
                ad >= 0,
        ;
    } else if ad == 0 {
        assert(bd == 0) by (nonlinear_arith)
            requires
                an == 1,
                an * bd <= bn * ad,
                ad == 0,
                bd >= 0,
        ;
    } else if cd == 0 {
        assert(an * cd == 0) by (nonlinear_arith)
            requires
                cd == 0,
        ;
        assert(cn * ad >= 0) by (nonlinear_arith)
            requires
                cn == 1,
                ad >= 0,
        ;
    } else {
        assert(an * cd <= cn * ad) by (nonlinear_arith)
            requires
                an * bd <= bn * ad,
                bn * cd <= cn * bd,
                ad > 0,
                bd > 0,
                cd > 0,
        {
            assert(an * bd * cd <= bn * ad * cd);
            assert(bn * cd * ad <= cn * bd * ad);
            assert((an * cd) * bd <= (cn * ad) * bd);
        }
    }
}

} // verus!
