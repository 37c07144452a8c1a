use vstd::prelude::*;

verus! {

/// Largest best-fitness value that the variation check takes into account.
pub const VARIATION_VALUE_LIMIT: u64 = 4294967296;

/// Largest window of generations that a variation rule may look at.
pub const VARIATION_SAMPLE_LIMIT: usize = 65536;

/// Stagnation rule: over the last `sample` generations, the coefficient of variation of
/// the best fitness (standard deviation over mean) is below `threshold_per_mille / 1000`.
#[derive(Clone, Copy, Debug, PartialEq, Eq, Structural)]
pub struct VariationRule {
    pub sample: usize,
    pub threshold_per_mille: u64,
}

pub open spec fn rule_ok(r: VariationRule) -> bool {
    &&& 1 < r.sample <= VARIATION_SAMPLE_LIMIT
    &&& 0 < r.threshold_per_mille <= 1000
}

pub open spec fn sum_of(xs: Seq<u64>) -> int
    decreases xs.len(),
{
    if xs.len() == 0 {
        0
    } else {
        sum_of(xs.drop_last()) + xs.last()
    }
}

pub open spec fn sum_of_squares(xs: Seq<u64>) -> int
    decreases xs.len(),
{
    if xs.len() == 0 {
        0
    } else {
        sum_of_squares(xs.drop_last()) + xs.last() * xs.last()
    }
}

/// With n values, sum S and sum of squares Q, the coefficient of variation is
/// sqrt(n Q - S^2) / S; it is below t / 1000 exactly when
/// 1000^2 (n Q - S^2) < t^2 S^2. All-zero values count as stagnant.
pub open spec fn stagnant(xs: Seq<u64>, threshold_per_mille: int) -> bool {
    let n = xs.len() as int;
    let s = sum_of(xs);
    let q = sum_of_squares(xs);
    1000000 * (n * q - s * s) < threshold_per_mille * threshold_per_mille * s * s || s == 0
}

/// The rule sees a full window of values that are all within the checked range, and the
/// window is stagnant.
pub open spec fn rule_met(history: Seq<u64>, r: VariationRule) -> bool {
    let w = history.subrange(history.len() - r.sample, history.len() as int);
    &&& r.sample <= history.len()
    &&& forall|k: int| 0 <= k < w.len() ==> #[trigger] w[k] <= VARIATION_VALUE_LIMIT
    &&& stagnant(w, r.threshold_per_mille as int)
}

/// Every rule is met, and there is at least one.
pub open spec fn all_rules_met(history: Seq<u64>, rules: Seq<VariationRule>) -> bool {
    &&& rules.len() > 0
    &&& forall|k: int| 0 <= k < rules.len() ==> rule_met(history, #[trigger] rules[k])
}

proof fn lemma_square_bound(x: int)
    requires
        0 <= x <= VARIATION_VALUE_LIMIT,
    ensures
        0 <= x * x <= 18446744073709551616,
{
    assert(0 <= x * x <= 18446744073709551616) by (nonlinear_arith)
        requires
            0 <= x <= VARIATION_VALUE_LIMIT,
    ;
}

/// Checks one rule against the history of best fitness values.
pub fn rule_holds(history: &Vec<u64>, r: &VariationRule) -> (b: bool)
    requires
        rule_ok(*r),
    ensures
        b == rule_met(history@, *r),
{
    let len = history.len();
    if r.sample > len {
        return false;
    }
    let start = len - r.sample;
    let ghost w = history@.subrange(start as int, len as int);
    let mut s: u128 = 0;
    let mut q: u128 = 0;
    let mut i: usize = start;
    while i < len
        invariant
            rule_ok(*r),
            len == history@.len(),
            start == len - r.sample,
            start <= i <= len,
            w == history@.subrange(start as int, len as int),
            s == sum_of(w.subrange(0, i - start)),
            q == sum_of_squares(w.subrange(0, i - start)),
            s <= (i - start) * VARIATION_VALUE_LIMIT,
            q <= (i - start) * 18446744073709551616,
            forall|k: int| 0 <= k < i - start ==> #[trigger] w[k] <= VARIATION_VALUE_LIMIT,
        decreases len - i,
    {
        let x = history[i];
        if x > VARIATION_VALUE_LIMIT {
            assert(w[i - start] == history@[i as int]);
            return false;
        }
        proof {
            lemma_square_bound(x as int);
            assert(i - start < 65536);
            let prefix = w.subrange(0, i + 1 - start);
            assert(prefix.drop_last() =~= w.subrange(0, i - start));
            assert(prefix.last() == x);
        }
        s = s + x as u128;
        q = q + (x as u128) * (x as u128);
        i = i + 1;
    }
    proof {
        assert(w.subrange(0, r.sample as int) =~= w);
    }
    let n = r.sample as u128;
    let t = r.threshold_per_mille as u128;
    assert(n * q <= 65536 * (65536 * 18446744073709551616)) by (nonlinear_arith)
        requires
            n <= 65536,
            q <= n * 18446744073709551616,
    ;
    assert(s * s <= 79228162514264337593543950336) by (nonlinear_arith)
        requires
            s <= n * 4294967296,
            n <= 65536,
    ;
    assert(t * t <= 1000000) by (nonlinear_arith)
        requires
            t <= 1000,
    ;
    let sq = s * s;
    let lhs = 1000000 * (n * q);
    let tt = t * t;
    assert(sq <= 79228162514264337593543950336);
    assert(tt * sq <= 1000000 * sq) by (nonlinear_arith)
        requires
            tt <= 1000000,
    ;
    let scaled = tt * sq;
    assert(scaled <= 1000000 * 79228162514264337593543950336);
    let rhs = scaled + 1000000 * sq;
    proof {
        let (ti, si, ni, qi) = (t as int, s as int, n as int, q as int);
        assert(ti * ti * si * si == ti * ti * (si * si)) by (nonlinear_arith);
        assert(1000000 * (ni * qi - si * si) == 1000000 * (ni * qi) - 1000000 * (si * si))
            by (nonlinear_arith);
        assert(w.len() == n);
    }
    lhs < rhs || s == 0
}

/// All rules hold; with no rule, the search never counts as stagnant.
pub fn rules_hold(history: &Vec<u64>, rules: &Vec<VariationRule>) -> (b: bool)
    requires
        forall|k: int| 0 <= k < rules@.len() ==> rule_ok(#[trigger] rules@[k]),
    ensures
        b == all_rules_met(history@, rules@),
{
    if rules.len() == 0 {
        return false;
    }
    let mut k: usize = 0;
    while k < rules.len()
        invariant
            forall|x: int| 0 <= x < rules@.len() ==> rule_ok(#[trigger] rules@[x]),
            k <= rules@.len(),
            forall|x: int| 0 <= x < k ==> rule_met(history@, #[trigger] rules@[x]),
        decreases rules@.len() - k,
    {
        if !rule_holds(history, &rules[k]) {
            return false;
        }
        k = k + 1;
    }
    true
}

} // verus!
