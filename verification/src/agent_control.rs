//! Agent feedback control: the escalation applied when an agent's metrics
//! exceed their bounds, and the stability judgement over a history of metrics.

use vstd::prelude::*;

verus! {

/// Which of the bounded metrics of one sample exceed their bound.
#[derive(Debug, Clone, Copy, PartialEq, Eq, Structural)]
pub struct BoundExceedance {
    /// The token rate is above its maximum.
    pub token_rate: bool,
    /// The error rate is above its maximum.
    pub error_rate: bool,
    /// The deviation score is above its maximum.
    pub deviation: bool,
}

/// 1 for an exceeded bound, 0 otherwise.
pub open spec fn indicator(b: bool) -> nat {
    if b {
        1
    } else {
        0
    }
}

impl BoundExceedance {
    /// Number of exceeded bounds (0 to 3).
    pub open spec fn violations(&self) -> nat {
        indicator(self.token_rate) + indicator(self.error_rate) + indicator(self.deviation)
    }

    /// Counts the exceeded bounds.
    pub fn count(&self) -> (k: usize)
        ensures
            k == self.violations(),
            k <= 3,
            k == seq![self.token_rate, self.error_rate, self.deviation].filter(|b: bool| b).len(),
    {
        proof {
            lemma_count_true_three(self.token_rate, self.error_rate, self.deviation);
        }
        let mut k: usize = 0;
        if self.token_rate {
            k = k + 1;
        }
        if self.error_rate {
            k = k + 1;
        }
        if self.deviation {
            k = k + 1;
        }
        k
    }
}

/// Warning level for a number of exceeded bounds: none, mild, then severe.
pub open spec fn warning_level_for(violations: nat) -> u32 {
    if violations == 0 {
        0
    } else if violations == 1 {
        1
    } else {
        2
    }
}

/// Description of the control action for a number of exceeded bounds.
pub open spec fn description_for(violations: nat) -> Seq<char> {
    if violations == 0 {
        "Normal operation"@
    } else if violations == 1 {
        "Mild: one bound exceeded"@
    } else if violations == 2 {
        "Severe: two bounds exceeded"@
    } else {
        "Critical: all bounds exceeded"@
    }
}

/// How strongly an agent is reined in for the bounds it exceeds.
pub struct Escalation {
    /// Warning level (0 = none, 1 = mild, 2 = severe)
    pub warning_level: u32,
    /// Whether to apply stricter prompting
    pub strict_mode: bool,
    /// Description of the control action
    pub description: String,
}

/// The escalation for a sample: the warning level and description follow the
/// number of exceeded bounds, and strict mode applies from two exceeded bounds on.
pub fn escalation(exceeded: &BoundExceedance) -> (e: Escalation)
    ensures
        e.warning_level == warning_level_for(exceeded.violations()),
        e.strict_mode == (exceeded.violations() >= 2),
        e.description@ == description_for(exceeded.violations()),
        e.strict_mode == ((exceeded.token_rate && exceeded.error_rate) || (exceeded.token_rate
            && exceeded.deviation) || (exceeded.error_rate && exceeded.deviation)),
        (e.warning_level == 0) == (!exceeded.token_rate && !exceeded.error_rate
            && !exceeded.deviation),
        e.warning_level <= 2,
        e.warning_level == 2 <==> e.strict_mode,
{
    let violations = exceeded.count();
    let (warning_level, description) = if violations == 0 {
        (0u32, "Normal operation".to_owned())
    } else if violations == 1 {
        (1u32, "Mild: one bound exceeded".to_owned())
    } else if violations == 2 {
        (2u32, "Severe: two bounds exceeded".to_owned())
    } else {
        (2u32, "Critical: all bounds exceeded".to_owned())
    };
    Escalation { warning_level, strict_mode: violations >= 2, description }
}

/// Law of escalation: strict mode goes with the severe warning level, and
/// exceeding more bounds never lowers the warning level.
pub proof fn lemma_escalation_is_monotone(fewer: nat, more: nat)
    requires
        fewer <= more,
    ensures
        warning_level_for(fewer) <= warning_level_for(more),
        (more >= 2) <==> (warning_level_for(more) == 2),
        warning_level_for(more) <= 2,
{
}

/// Number of `true` entries.
pub open spec fn count_true(s: Seq<bool>) -> nat
    decreases s.len(),
{
    if s.len() == 0 {
        0
    } else {
        count_true(s.drop_last()) + indicator(s.last())
    }
}

/// Total number of exceeded bounds over a history of samples.
pub open spec fn total_violations(s: Seq<BoundExceedance>) -> nat
    decreases s.len(),
{
    if s.len() == 0 {
        0
    } else {
        total_violations(s.drop_last()) + s.last().violations()
    }
}

/// Law of counting violations: the violations of a history add up over any two
/// consecutive parts of it, and a history of one sample has that sample's
/// exceeded bounds as its violations.
pub proof fn lemma_total_violations_concat(a: Seq<BoundExceedance>, b: Seq<BoundExceedance>)
    ensures
        total_violations(a + b) == total_violations(a) + total_violations(b),
    decreases b.len(),
{
    if b.len() == 0 {
        assert(a + b =~= a);
    } else {
        assert((a + b).drop_last() =~= a + b.drop_last());
        lemma_total_violations_concat(a, b.drop_last());
    }
}

/// Law: one sample's violations are its exceeded bounds.
pub proof fn lemma_total_violations_single(x: BoundExceedance)
    ensures
        total_violations(seq![x]) == seq![x.token_rate, x.error_rate, x.deviation].filter(
            |b: bool| b,
        ).len(),
{
    assert(seq![x].drop_last() =~= Seq::<BoundExceedance>::empty());
    assert(seq![x].last() == x);
    assert(total_violations(Seq::<BoundExceedance>::empty()) == 0);
    assert(total_violations(seq![x]) == x.violations());
    lemma_count_true_three(x.token_rate, x.error_rate, x.deviation);
}

/// Whether a signal of `signal_len` points oscillates, given for each pair of
/// neighbouring points whether the signal crosses its mean between them: it
/// needs at least four points and more crossings than half its length.
pub open spec fn oscillates(signal_len: nat, crossings: Seq<bool>) -> bool {
    signal_len >= 4 && count_true(crossings) > signal_len / 2
}

/// The `true` entries counted are those that `Seq::filter` keeps.
pub proof fn lemma_count_true_is_filter_len(s: Seq<bool>)
    ensures
        count_true(s) == s.filter(|b: bool| b).len(),
        count_true(s) <= s.len(),
    decreases s.len(),
{
    reveal_with_fuel(Seq::<_>::filter, 1);
    if s.len() > 0 {
        lemma_count_true_is_filter_len(s.drop_last());
    }
}

proof fn lemma_count_true_three(x: bool, y: bool, z: bool)
    ensures
        count_true(seq![x, y, z]) == indicator(x) + indicator(y) + indicator(z),
        count_true(seq![x, y, z]) == seq![x, y, z].filter(|b: bool| b).len(),
{
    let s3 = seq![x, y, z];
    let s2 = seq![x, y];
    let s1 = seq![x];
    let s0 = Seq::<bool>::empty();
    assert(s3.drop_last() =~= s2);
    assert(s2.drop_last() =~= s1);
    assert(s1.drop_last() =~= s0);
    assert(count_true(s0) == 0);
    assert(count_true(s1) == indicator(x));
    assert(count_true(s2) == indicator(x) + indicator(y));
    assert(count_true(s3) == indicator(x) + indicator(y) + indicator(z));
    lemma_count_true_is_filter_len(s3);
}

/// Law of the oscillation test: a signal of at least four points oscillates
/// exactly when more than half its points are mean crossings, that is when twice
/// the number of crossings exceeds its length, for odd and even lengths alike;
/// a shorter signal never oscillates.
pub proof fn lemma_oscillation_is_majority_of_crossings(signal_len: nat, crossings: Seq<bool>)
    ensures
        oscillates(signal_len, crossings) <==> (signal_len >= 4 && 2 * crossings.filter(
            |b: bool| b,
        ).len() > signal_len),
{
    lemma_count_true_is_filter_len(crossings);
}

/// Counts the `true` entries.
pub fn count_crossings(crossings: &Vec<bool>) -> (k: usize)
    ensures
        k == count_true(crossings@),
        k == crossings@.filter(|b: bool| b).len(),
{
    proof {
        lemma_count_true_is_filter_len(crossings@);
    }
    let mut k: usize = 0;
    assert(crossings@.take(0) =~= Seq::<bool>::empty());
    for i in 0..crossings.len()
        invariant
            k == count_true(crossings@.take(i as int)),
            k <= i,
    {
        assert(crossings@.take(i + 1).drop_last() =~= crossings@.take(i as int));
        if crossings[i] {
            k = k + 1;
        }
    }
    assert(crossings@.take(crossings@.len() as int) =~= crossings@);
    k
}

/// Oscillation test on a signal of `signal_len` points from its mean crossings
/// (one flag per pair of neighbouring points).
pub fn oscillation_detected(signal_len: usize, crossings: &Vec<bool>) -> (osc: bool)
    ensures
        osc == oscillates(signal_len as nat, crossings@),
        osc == (signal_len >= 4 && 2 * crossings@.filter(|b: bool| b).len() > signal_len),
{
    proof {
        lemma_oscillation_is_majority_of_crossings(signal_len as nat, crossings@);
    }
    if signal_len < 4 {
        return false;
    }
    let k = count_crossings(crossings);
    k > signal_len / 2
}

/// Judgement on an agent's behaviour over a history of samples.
#[derive(Debug, Clone, Copy, PartialEq, Eq, Structural)]
pub struct StabilityAssessment {
    /// Whether the agent's behavior is stable
    pub is_stable: bool,
    /// Total number of bound violations
    pub bound_violations: usize,
    /// Whether oscillatory behavior was detected
    pub oscillation_detected: bool,
}

/// The stability judgement over a history: every exceeded bound of every sample is
/// a violation, the deviation signal (one point per sample) is tested for
/// oscillation through its mean crossings, and the agent is stable exactly when
/// there is no violation and no oscillation. A history of fewer than four
/// samples never oscillates, and the empty history is stable.
pub fn assess_stability(samples: &Vec<BoundExceedance>, crossings: &Vec<bool>) -> (v:
    StabilityAssessment)
    requires
        3 * samples@.len() <= usize::MAX,
    ensures
        v.bound_violations == total_violations(samples@),
        v.oscillation_detected == oscillates(samples@.len(), crossings@),
        v.oscillation_detected == (samples@.len() >= 4 && 2 * crossings@.filter(|b: bool| b).len()
            > samples@.len()),
        v.is_stable == (v.bound_violations == 0 && !v.oscillation_detected),
        samples@.len() < 4 ==> !v.oscillation_detected,
        samples@.len() == 0 ==> v.is_stable && v.bound_violations == 0,
{
    let mut violations: usize = 0;
    assert(samples@.take(0) =~= Seq::<BoundExceedance>::empty());
    for i in 0..samples.len()
        invariant
            3 * samples@.len() <= usize::MAX,
            violations == total_violations(samples@.take(i as int)),
            violations <= 3 * i,
    {
        assert(samples@.take(i + 1).drop_last() =~= samples@.take(i as int));
        let k = samples[i].count();
        violations = violations + k;
    }
    assert(samples@.take(samples@.len() as int) =~= samples@);
    let oscillation = oscillation_detected(samples.len(), crossings);
    proof {
        lemma_oscillation_is_majority_of_crossings(samples@.len(), crossings@);
    }
    StabilityAssessment {
        is_stable: violations == 0 && !oscillation,
        bound_violations: violations,
        oscillation_detected: oscillation,
    }
}

} // verus!
