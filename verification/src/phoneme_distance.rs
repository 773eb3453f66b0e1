use vstd::prelude::*;

use crate::errors::{PhlDistanceError, PhlDistanceErrorView};
use crate::features::Symbol;
use crate::levenshtein::{
    default_cost_eq, diff_steps, no_error, spec_default_eq_cost, unit_cost, ComputeCost, Cost,
    LevenshteinStep,
};
use crate::systems::PhonologicalFeatureSystem;

verus! {

/// The phoneme-identity cost policy: a substitution of unequal symbols costs
/// one unit, a deletion or insertion one unit, except that the system's
/// zero-cost markers align against each other for nothing and may not be
/// substituted against ordinary symbols. It never fails, and never needs the
/// feature table.
pub struct PhonemeCostCalculator<'a> {
    pub system: &'a PhonologicalFeatureSystem,
}

/// Whether an optional symbol is one of the system's zero-cost markers.
pub open spec fn spec_opt_zero_cost(
    system: &PhonologicalFeatureSystem,
    s: Option<Seq<char>>,
) -> bool {
    match s {
        Some(x) => system.spec_is_zero_cost(x),
        None => false,
    }
}

impl<'a> PhonemeCostCalculator<'a> {
    pub fn new(system: &'a PhonologicalFeatureSystem) -> (r: Self)
        ensures
            r.system == system,
    {
        PhonemeCostCalculator { system }
    }

    fn is_zero_cost(&self, s: Option<&Symbol>) -> (r: bool)
        ensures
            r == spec_opt_zero_cost(self.system, crate::levenshtein::opt_view(s)),
    {
        match s {
            Some(x) => self.system.is_zero_cost(x),
            None => false,
        }
    }

    /// The alignment of `a` against `b` under this policy; it always
    /// succeeds.
    pub fn diff_steps(&self, a: &Vec<Symbol>, b: &Vec<Symbol>) -> (r: Result<
        Vec<LevenshteinStep>,
        PhlDistanceError,
    >)
        ensures
            r matches Ok(steps) && steps.deep_view() == crate::levenshtein::trace(
                self,
                a.deep_view(),
                b.deep_view(),
                a.len() as int,
                b.len() as int,
            ),
            r matches Ok(steps) ==> crate::levenshtein::expected_of(steps.deep_view())
                == a.deep_view() && crate::levenshtein::actual_of(steps.deep_view())
                == b.deep_view(),
            r matches Ok(steps) ==> crate::levenshtein::total_of(steps.deep_view())
                == crate::levenshtein::cell_cost(
                self,
                a.deep_view(),
                b.deep_view(),
                a.len() as int,
                b.len() as int,
            ),
    {
        proof {
            crate::levenshtein::lemma_always_ok(self, a.deep_view(), b.deep_view());
        }
        diff_steps(self, a, b)
    }
}

impl<'a> ComputeCost for PhonemeCostCalculator<'a> {
    open spec fn wf(&self) -> bool {
        true
    }

    open spec fn sub_ok(&self, a: Option<Seq<char>>, b: Option<Seq<char>>) -> bool {
        true
    }

    open spec fn sub_cost(&self, a: Option<Seq<char>>, b: Option<Seq<char>>) -> Cost {
        if spec_opt_zero_cost(self.system, a) && spec_opt_zero_cost(self.system, b) {
            Cost::Value(0)
        } else if spec_opt_zero_cost(self.system, a) || spec_opt_zero_cost(self.system, b) {
            Cost::Infinite
        } else {
            match (a, b) {
                (Some(x), Some(y)) => if x != y {
                    unit_cost()
                } else {
                    Cost::Value(0)
                },
                _ => Cost::Infinite,
            }
        }
    }

    open spec fn sub_err(&self, a: Option<Seq<char>>, b: Option<Seq<char>>) -> PhlDistanceErrorView {
        no_error()
    }

    open spec fn del_ok(&self, a: Option<Seq<char>>) -> bool {
        true
    }

    open spec fn del_cost(&self, a: Option<Seq<char>>) -> Cost {
        if spec_opt_zero_cost(self.system, a) {
            Cost::Value(0)
        } else {
            match a {
                Some(_) => unit_cost(),
                None => Cost::Infinite,
            }
        }
    }

    open spec fn del_err(&self, a: Option<Seq<char>>) -> PhlDistanceErrorView {
        no_error()
    }

    open spec fn ins_ok(&self, b: Option<Seq<char>>) -> bool {
        true
    }

    open spec fn ins_cost(&self, b: Option<Seq<char>>) -> Cost {
        if spec_opt_zero_cost(self.system, b) {
            Cost::Value(0)
        } else {
            match b {
                Some(_) => unit_cost(),
                None => Cost::Infinite,
            }
        }
    }

    open spec fn ins_err(&self, b: Option<Seq<char>>) -> PhlDistanceErrorView {
        no_error()
    }

    open spec fn eq_ok(&self, a: Option<Seq<char>>, b: Option<Seq<char>>) -> bool {
        true
    }

    open spec fn eq_cost(&self, a: Option<Seq<char>>, b: Option<Seq<char>>) -> Cost {
        spec_default_eq_cost(a, b)
    }

    open spec fn eq_err(&self, a: Option<Seq<char>>, b: Option<Seq<char>>) -> PhlDistanceErrorView {
        no_error()
    }

    fn cost_sub(&self, a: Option<&Symbol>, b: Option<&Symbol>) -> (r: Result<
        Cost,
        PhlDistanceError,
    >) {
        let za = self.is_zero_cost(a);
        let zb = self.is_zero_cost(b);
        if za && zb {
            Ok(Cost::Value(0))
        } else if za || zb {
            Ok(Cost::Infinite)
        } else {
            match (a, b) {
                (Some(x), Some(y)) => {
                    if !crate::features::str_eq(x.0.as_str(), y.0.as_str()) {
                        Ok(Cost::Value(4))
                    } else {
                        Ok(Cost::Value(0))
                    }
                },
                _ => Ok(Cost::Infinite),
            }
        }
    }

    fn cost_del(&self, a: Option<&Symbol>) -> (r: Result<Cost, PhlDistanceError>) {
        if self.is_zero_cost(a) {
            Ok(Cost::Value(0))
        } else {
            match a {
                Some(_) => Ok(Cost::Value(4)),
                None => Ok(Cost::Infinite),
            }
        }
    }

    fn cost_ins(&self, b: Option<&Symbol>) -> (r: Result<Cost, PhlDistanceError>) {
        if self.is_zero_cost(b) {
            Ok(Cost::Value(0))
        } else {
            match b {
                Some(_) => Ok(Cost::Value(4)),
                None => Ok(Cost::Infinite),
            }
        }
    }

    fn cost_eq(&self, a: Option<&Symbol>, b: Option<&Symbol>) -> (r: Result<
        Cost,
        PhlDistanceError,
    >) {
        Ok(default_cost_eq(a, b))
    }
}

/// Aligning a sequence with itself under the identity policy costs nothing
/// and is one free `EQ` step per symbol, provided no symbol is a zero-cost
/// marker. (With a zero-cost marker in the sequence the tie order lets `DEL`
/// win a free cell first, so the law is stated without those inputs.)
pub proof fn lemma_phoneme_diff_self(system: &PhonologicalFeatureSystem, a: Seq<Seq<char>>)
    requires
        forall|k: int| 0 <= k < a.len() ==> !system.spec_is_zero_cost(#[trigger] a[k]),
    ensures
        crate::levenshtein::cell_cost(
            &(PhonemeCostCalculator { system }),
            a,
            a,
            a.len() as int,
            a.len() as int,
        ) == Cost::Value(0),
        crate::levenshtein::trace(
            &(PhonemeCostCalculator { system }),
            a,
            a,
            a.len() as int,
            a.len() as int,
        ) =~= Seq::new(
            a.len(),
            |k: int|
                crate::levenshtein::StepView {
                    action: crate::levenshtein::Action::EQ,
                    expected: Some(a[k]),
                    actual: Some(a[k]),
                    cost: Cost::Value(0),
                },
        ),
{
    let c = PhonemeCostCalculator { system };
    assert forall|k: int| 0 <= k < a.len() implies #[trigger] c.eq_cost(Some(a[k]), Some(a[k]))
        == Cost::Value(0) by {}
    assert forall|k: int|
        0 <= k < a.len() implies crate::levenshtein::cost_pos(
        #[trigger] c.del_cost(Some(a[k])),
    ) by {}
    assert forall|k: int|
        0 <= k < a.len() implies crate::levenshtein::cost_pos(
        #[trigger] c.ins_cost(Some(a[k])),
    ) by {}
    crate::levenshtein::lemma_diff_self(&c, a, a.len() as int);
}

/// Under the identity policy the backtraced path runs through finite-cost
/// edges only: no step of it is ever charged a forbidding cost.
pub proof fn lemma_phoneme_trace_finite(
    system: &PhonologicalFeatureSystem,
    a: Seq<Seq<char>>,
    b: Seq<Seq<char>>,
)
    ensures
        forall|k: int|
            0 <= k < crate::levenshtein::trace(
                &(PhonemeCostCalculator { system }),
                a,
                b,
                a.len() as int,
                b.len() as int,
            ).len() ==> (#[trigger] crate::levenshtein::trace(
                &(PhonemeCostCalculator { system }),
                a,
                b,
                a.len() as int,
                b.len() as int,
            )[k]).cost is Value,
{
    let c = PhonemeCostCalculator { system };
    crate::levenshtein::lemma_trace_finite(&c, a, b, a.len() as int, b.len() as int);
}

/// Distance under the identity policy is commutative: the policy is
/// symmetric in its symbol arguments, so the two whole tables agree at their
/// far corners.
pub proof fn lemma_phoneme_diff_symmetric(
    system: &PhonologicalFeatureSystem,
    a: Seq<Seq<char>>,
    b: Seq<Seq<char>>,
)
    ensures
        crate::levenshtein::cell_cost(
            &(PhonemeCostCalculator { system }),
            a,
            b,
            a.len() as int,
            b.len() as int,
        ) == crate::levenshtein::cell_cost(
            &(PhonemeCostCalculator { system }),
            b,
            a,
            b.len() as int,
            a.len() as int,
        ),
{
    let c = PhonemeCostCalculator { system };
    crate::levenshtein::lemma_diff_symmetric(&c, a, b);
}

} // verus!
