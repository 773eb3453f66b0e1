use vstd::prelude::*;

use crate::errors::{PhlDistanceError, PhlDistanceErrorView};
use crate::features::{FeatureValue, FeatureView, Symbol};
use crate::levenshtein::{
    cost_add, default_cost_eq, diff_steps, no_error, spec_default_eq_cost, ComputeCost, Cost,
    LevenshteinStep,
};
use crate::phoneme_distance::spec_opt_zero_cost;
use crate::systems::{spec_find_symbol, PhonologicalFeatureSystem};

verus! {

/// The cost one feature dimension contributes. With both sides present it is
/// half the distance between the two magnitudes; against an absent side it
/// is half a unit when the present magnitude is exactly zero and a whole
/// unit otherwise. Arithmetic over an underspecified value is `Unknown`.
pub open spec fn spec_feature_cost(left: Option<FeatureValue>, right: Option<FeatureValue>) -> Cost {
    match (left, right) {
        (Some(lv), Some(rv)) => match (lv.spec_halves(), rv.spec_halves()) {
            (Some(x), Some(y)) => Cost::Value(
                (if x >= y {
                    x - y
                } else {
                    y - x
                }) as u64,
            ),
            _ => Cost::Unknown,
        },
        (Some(lv), None) => if lv.spec_halves() == Some(0int) {
            Cost::Value(2)
        } else {
            Cost::Value(4)
        },
        (None, Some(rv)) => if rv.spec_halves() == Some(0int) {
            Cost::Value(2)
        } else {
            Cost::Value(4)
        },
        (None, None) => Cost::Value(0),
    }
}

/// The summed per-dimension cost of substituting one vector for another,
/// from dimension `k` on.
pub open spec fn spec_sub_sum(ef: Seq<FeatureView>, af: Seq<FeatureView>, k: int) -> Cost
    decreases ef.len() - k,
{
    if k < 0 || k >= ef.len() || k >= af.len() {
        Cost::Value(0)
    } else {
        cost_add(
            spec_feature_cost(Some(ef[k].value), Some(af[k].value)),
            spec_sub_sum(ef, af, k + 1),
        )
    }
}

/// The summed per-dimension cost of deleting or inserting a whole vector,
/// from dimension `k` on.
pub open spec fn spec_side_sum(fs: Seq<FeatureView>, k: int) -> Cost
    decreases fs.len() - k,
{
    if k < 0 || k >= fs.len() {
        Cost::Value(0)
    } else {
        cost_add(spec_feature_cost(Some(fs[k].value), None), spec_side_sum(fs, k + 1))
    }
}

/// The per-dimension cost computation, per [`spec_feature_cost`]; at least
/// one side must be present.
fn feature_cost(left: Option<FeatureValue>, right: Option<FeatureValue>) -> (c: Cost)
    requires
        left is Some || right is Some,
    ensures
        c == spec_feature_cost(left, right),
{
    match (left, right) {
        (Some(lv), Some(rv)) => match (lv.halves(), rv.halves()) {
            (Some(x), Some(y)) => {
                let d: i8 = if x >= y {
                    x - y
                } else {
                    y - x
                };
                Cost::Value(d as u64)
            },
            _ => Cost::Unknown,
        },
        (Some(lv), None) => match lv.halves() {
            Some(0) => Cost::Value(2),
            _ => Cost::Value(4),
        },
        (None, Some(rv)) => match rv.halves() {
            Some(0) => Cost::Value(2),
            _ => Cost::Value(4),
        },
        (None, None) => Cost::Value(0),
    }
}

/// The feature-distance cost policy: substitution sums per-dimension
/// distances between the two resolved vectors, deletion and insertion charge
/// each dimension against the absent side, the system's zero-cost markers
/// short-circuit as in the identity policy, and any other symbol outside the
/// system's table fails with `PhonemeNotFound`.
pub struct FeatureCostCalculator<'a> {
    pub system: &'a PhonologicalFeatureSystem,
}

impl<'a> FeatureCostCalculator<'a> {
    pub fn new(system: &'a PhonologicalFeatureSystem) -> (r: Self)
        ensures
            r.system == system,
    {
        FeatureCostCalculator { system }
    }

    /// Whether the symbol is in the system's table.
    pub open spec fn found(&self, s: Seq<char>) -> bool {
        spec_find_symbol(self.system.entries.deep_view(), s) is Some
    }

    /// The resolved feature vector of a symbol in the table.
    pub open spec fn feats_of(&self, s: Seq<char>) -> Seq<FeatureView> {
        self.system.entries.deep_view()[spec_find_symbol(self.system.entries.deep_view(), s)->0].features
    }

    fn is_zero_cost(&self, s: Option<&Symbol>) -> (r: bool)
        ensures
            r == spec_opt_zero_cost(self.system, crate::levenshtein::opt_view(s)),
    {
        match s {
            Some(x) => self.system.is_zero_cost(x),
            None => false,
        }
    }

    /// The summed deletion or insertion cost of one symbol's vector, per
    /// [`spec_side_sum`].
    fn side_sum(&self, fs: &Vec<crate::features::Feature>) -> (c: Cost)
        ensures
            c == spec_side_sum(fs.deep_view(), 0),
    {
        let ghost fv = fs.deep_view();
        let mut acc = Cost::Value(0);
        let mut k: usize = 0;
        while k < fs.len()
            invariant
                k <= fs.len(),
                fv == fs.deep_view(),
                fv.len() == fs.len(),
                cost_add(acc, spec_side_sum(fv, k as int)) == spec_side_sum(fv, 0),
            decreases fs.len() - k,
        {
            let pc = feature_cost(Some(fs[k].value), None);
            proof {
                crate::levenshtein::lemma_cost_add_assoc(
                    acc,
                    pc,
                    spec_side_sum(fv, k + 1),
                );
            }
            acc = acc.plus(pc);
            k = k + 1;
        }
        proof {
            crate::levenshtein::lemma_cost_add_zero(acc);
        }
        acc
    }

    /// The summed substitution cost of two vectors, per [`spec_sub_sum`].
    fn sub_sum(
        &self,
        ef: &Vec<crate::features::Feature>,
        af: &Vec<crate::features::Feature>,
    ) -> (c: Cost)
        ensures
            c == spec_sub_sum(ef.deep_view(), af.deep_view(), 0),
    {
        let ghost ev = ef.deep_view();
        let ghost av = af.deep_view();
        let n = if ef.len() < af.len() {
            ef.len()
        } else {
            af.len()
        };
        let mut acc = Cost::Value(0);
        let mut k: usize = 0;
        while k < n
            invariant
                k <= n,
                ev == ef.deep_view(),
                av == af.deep_view(),
                ev.len() == ef.len(),
                av.len() == af.len(),
                n == if ev.len() < av.len() {
                    ev.len()
                } else {
                    av.len()
                },
                cost_add(acc, spec_sub_sum(ev, av, k as int)) == spec_sub_sum(ev, av, 0),
            decreases n - k,
        {
            let pc = feature_cost(Some(ef[k].value), Some(af[k].value));
            proof {
                crate::levenshtein::lemma_cost_add_assoc(acc, pc, spec_sub_sum(ev, av, k + 1));
            }
            acc = acc.plus(pc);
            k = k + 1;
        }
        proof {
            crate::levenshtein::lemma_cost_add_zero(acc);
        }
        acc
    }

    /// The alignment of `a` against `b` under this policy. It succeeds if
    /// and only if every token of both sides is either a zero-cost marker or
    /// declared in the system, and otherwise reports the first offender.
    pub fn diff_steps(&self, a: &Vec<Symbol>, b: &Vec<Symbol>) -> (r: Result<
        Vec<LevenshteinStep>,
        PhlDistanceError,
    >)
        ensures
            (r is Ok) == crate::levenshtein::all_ok(self, a.deep_view(), b.deep_view()),
            r matches Ok(steps) ==> steps.deep_view() == crate::levenshtein::trace(
                self,
                a.deep_view(),
                b.deep_view(),
                a.len() as int,
                b.len() as int,
            ),
            r matches Ok(steps) ==> crate::levenshtein::expected_of(steps.deep_view())
                == a.deep_view() && crate::levenshtein::actual_of(steps.deep_view())
                == b.deep_view(),
            r matches Ok(steps) ==> crate::levenshtein::total_of(steps.deep_view())
                == crate::levenshtein::cell_cost(
                self,
                a.deep_view(),
                b.deep_view(),
                a.len() as int,
                b.len() as int,
            ),
            r matches Err(e) ==> crate::levenshtein::first_err(self, a.deep_view(), b.deep_view())
                == Some(e@),
    {
        diff_steps(self, a, b)
    }
}

impl<'a> ComputeCost for FeatureCostCalculator<'a> {
    open spec fn wf(&self) -> bool {
        true
    }

    open spec fn sub_ok(&self, a: Option<Seq<char>>, b: Option<Seq<char>>) -> bool {
        if a is None || b is None {
            true
        } else if spec_opt_zero_cost(self.system, a) || spec_opt_zero_cost(self.system, b) {
            true
        } else {
            self.found(a->0) && self.found(b->0)
        }
    }

    open spec fn sub_cost(&self, a: Option<Seq<char>>, b: Option<Seq<char>>) -> Cost {
        if a is None || b is None {
            Cost::Infinite
        } else if spec_opt_zero_cost(self.system, a) && spec_opt_zero_cost(self.system, b) {
            Cost::Value(0)
        } else if spec_opt_zero_cost(self.system, a) || spec_opt_zero_cost(self.system, b) {
            Cost::Infinite
        } else {
            spec_sub_sum(self.feats_of(a->0), self.feats_of(b->0), 0)
        }
    }

    open spec fn sub_err(&self, a: Option<Seq<char>>, b: Option<Seq<char>>) -> PhlDistanceErrorView {
        if a is Some && !self.found(a->0) {
            PhlDistanceErrorView::PhonemeNotFound(a->0)
        } else if b is Some {
            PhlDistanceErrorView::PhonemeNotFound(b->0)
        } else {
            no_error()
        }
    }

    open spec fn del_ok(&self, a: Option<Seq<char>>) -> bool {
        if spec_opt_zero_cost(self.system, a) || a is None {
            true
        } else {
            self.found(a->0)
        }
    }

    open spec fn del_cost(&self, a: Option<Seq<char>>) -> Cost {
        if spec_opt_zero_cost(self.system, a) {
            Cost::Value(0)
        } else {
            match a {
                None => Cost::Infinite,
                Some(x) => spec_side_sum(self.feats_of(x), 0),
            }
        }
    }

    open spec fn del_err(&self, a: Option<Seq<char>>) -> PhlDistanceErrorView {
        match a {
            Some(x) => PhlDistanceErrorView::PhonemeNotFound(x),
            None => no_error(),
        }
    }

    open spec fn ins_ok(&self, b: Option<Seq<char>>) -> bool {
        if spec_opt_zero_cost(self.system, b) || b is None {
            true
        } else {
            self.found(b->0)
        }
    }

    open spec fn ins_cost(&self, b: Option<Seq<char>>) -> Cost {
        if spec_opt_zero_cost(self.system, b) {
            Cost::Value(0)
        } else {
            match b {
                None => Cost::Infinite,
                Some(x) => spec_side_sum(self.feats_of(x), 0),
            }
        }
    }

    open spec fn ins_err(&self, b: Option<Seq<char>>) -> PhlDistanceErrorView {
        match b {
            Some(x) => PhlDistanceErrorView::PhonemeNotFound(x),
            None => no_error(),
        }
    }

    open spec fn eq_ok(&self, a: Option<Seq<char>>, b: Option<Seq<char>>) -> bool {
        true
    }

    open spec fn eq_cost(&self, a: Option<Seq<char>>, b: Option<Seq<char>>) -> Cost {
        spec_default_eq_cost(a, b)
    }

    open spec fn eq_err(&self, a: Option<Seq<char>>, b: Option<Seq<char>>) -> PhlDistanceErrorView {
        no_error()
    }

    fn cost_sub(&self, a: Option<&Symbol>, b: Option<&Symbol>) -> (r: Result<
        Cost,
        PhlDistanceError,
    >) {
        if a.is_none() || b.is_none() {
            return Ok(Cost::Infinite);
        }
        let za = self.is_zero_cost(a);
        let zb = self.is_zero_cost(b);
        if za && zb {
            return Ok(Cost::Value(0));
        }
        if za || zb {
            return Ok(Cost::Infinite);
        }
        let ax = a.unwrap();
        let bx = b.unwrap();
        let ae = match self.system.get_for_symbol(ax) {
            Some(e) => e,
            None => {
                return Err(PhlDistanceError::PhonemeNotFoundError(ax.0.clone()));
            },
        };
        let be = match self.system.get_for_symbol(bx) {
            Some(e) => e,
            None => {
                return Err(PhlDistanceError::PhonemeNotFoundError(bx.0.clone()));
            },
        };
        Ok(self.sub_sum(&ae.features, &be.features))
    }

    fn cost_del(&self, a: Option<&Symbol>) -> (r: Result<Cost, PhlDistanceError>) {
        if self.is_zero_cost(a) {
            return Ok(Cost::Value(0));
        }
        match a {
            None => Ok(Cost::Infinite),
            Some(x) => match self.system.get_for_symbol(x) {
                Some(e) => Ok(self.side_sum(&e.features)),
                None => Err(PhlDistanceError::PhonemeNotFoundError(x.0.clone())),
            },
        }
    }

    fn cost_ins(&self, b: Option<&Symbol>) -> (r: Result<Cost, PhlDistanceError>) {
        if self.is_zero_cost(b) {
            return Ok(Cost::Value(0));
        }
        match b {
            None => Ok(Cost::Infinite),
            Some(x) => match self.system.get_for_symbol(x) {
                Some(e) => Ok(self.side_sum(&e.features)),
                None => Err(PhlDistanceError::PhonemeNotFoundError(x.0.clone())),
            },
        }
    }

    fn cost_eq(&self, a: Option<&Symbol>, b: Option<&Symbol>) -> (r: Result<
        Cost,
        PhlDistanceError,
    >) {
        Ok(default_cost_eq(a, b))
    }
}

/// One feature dimension charges the same in either direction.
pub proof fn lemma_feature_cost_symmetric(l: Option<FeatureValue>, r: Option<FeatureValue>)
    ensures
        spec_feature_cost(l, r) == spec_feature_cost(r, l),
{
}

/// Substituting one vector for another charges the same in either direction.
pub proof fn lemma_sub_sum_symmetric(ef: Seq<FeatureView>, af: Seq<FeatureView>, k: int)
    ensures
        spec_sub_sum(ef, af, k) == spec_sub_sum(af, ef, k),
    decreases ef.len() - k,
{
    if !(k < 0 || k >= ef.len() || k >= af.len()) {
        lemma_feature_cost_symmetric(Some(ef[k].value), Some(af[k].value));
        lemma_sub_sum_symmetric(ef, af, k + 1);
    }
}

/// Deleting or inserting a non-empty vector always costs something: each
/// dimension charges at least half a unit against the absent side.
pub proof fn lemma_side_sum_pos(fs: Seq<FeatureView>)
    requires
        fs.len() > 0,
    ensures
        crate::levenshtein::cost_pos(spec_side_sum(fs, 0)),
{
    crate::levenshtein::lemma_cost_add_pos_either(
        spec_feature_cost(Some(fs[0].value), None),
        spec_side_sum(fs, 1),
    );
}

/// Deleting or inserting a vector is always charged a finite cost: each
/// dimension contributes half a unit or a whole one, never more.
pub proof fn lemma_side_sum_finite(fs: Seq<FeatureView>, k: int)
    ensures
        spec_side_sum(fs, k) is Value,
    decreases fs.len() - k,
{
    if !(k < 0 || k >= fs.len()) {
        lemma_side_sum_finite(fs, k + 1);
    }
}

/// Under the feature policy the backtraced path runs through finite-cost
/// edges only: no step of it is ever charged a forbidding or undefined
/// cost.
pub proof fn lemma_feature_trace_finite(
    system: &PhonologicalFeatureSystem,
    a: Seq<Seq<char>>,
    b: Seq<Seq<char>>,
)
    ensures
        forall|k: int|
            0 <= k < crate::levenshtein::trace(
                &(FeatureCostCalculator { system }),
                a,
                b,
                a.len() as int,
                b.len() as int,
            ).len() ==> (#[trigger] crate::levenshtein::trace(
                &(FeatureCostCalculator { system }),
                a,
                b,
                a.len() as int,
                b.len() as int,
            )[k]).cost is Value,
{
    let c = FeatureCostCalculator { system };
    assert forall|k: int| 0 <= k < a.len() implies (#[trigger] c.del_cost(Some(a[k])))
        is Value by {
        if !spec_opt_zero_cost(system, Some(a[k])) {
            lemma_side_sum_finite(c.feats_of(a[k]), 0);
        }
    }
    assert forall|k: int| 0 <= k < b.len() implies (#[trigger] c.ins_cost(Some(b[k])))
        is Value by {
        if !spec_opt_zero_cost(system, Some(b[k])) {
            lemma_side_sum_finite(c.feats_of(b[k]), 0);
        }
    }
    crate::levenshtein::lemma_trace_finite(&c, a, b, a.len() as int, b.len() as int);
}

/// Distance under the feature policy is commutative: the policy is symmetric
/// in its symbol arguments, so the two whole tables agree at their far
/// corners, and one diff succeeds exactly when the other does.
pub proof fn lemma_feature_diff_symmetric(
    system: &PhonologicalFeatureSystem,
    a: Seq<Seq<char>>,
    b: Seq<Seq<char>>,
)
    ensures
        crate::levenshtein::cell_cost(
            &(FeatureCostCalculator { system }),
            a,
            b,
            a.len() as int,
            b.len() as int,
        ) == crate::levenshtein::cell_cost(
            &(FeatureCostCalculator { system }),
            b,
            a,
            b.len() as int,
            a.len() as int,
        ),
        crate::levenshtein::all_ok(&(FeatureCostCalculator { system }), a, b)
            == crate::levenshtein::all_ok(&(FeatureCostCalculator { system }), b, a),
{
    let c = FeatureCostCalculator { system };
    assert forall|x: Option<Seq<char>>, y: Option<Seq<char>>| #[trigger] c.sub_cost(x, y)
        == c.sub_cost(y, x) by {
        if x is Some && y is Some {
            lemma_sub_sum_symmetric(c.feats_of(x->0), c.feats_of(y->0), 0);
        }
    }
    crate::levenshtein::lemma_diff_symmetric(&c, a, b);
}

/// Aligning a sequence with itself under the feature policy costs nothing
/// and is one free `EQ` step per symbol, provided the system declares at
/// least one feature dimension and every symbol of the sequence is declared
/// and is no zero-cost marker. (A zero-cost marker, or a system of zero
/// dimensions, makes deletions free, and the tie order then lets `DEL` win a
/// free cell first; the law is stated without those inputs.) Every policy
/// call of that table succeeds, so the diff returns these steps.
pub proof fn lemma_feature_diff_self(system: &PhonologicalFeatureSystem, a: Seq<Seq<char>>)
    requires
        system.wf(),
        system.num_features > 0,
        forall|k: int| 0 <= k < a.len() ==> !system.spec_is_zero_cost(#[trigger] a[k]),
        forall|k: int|
            0 <= k < a.len() ==> spec_find_symbol(system.entries.deep_view(), #[trigger] a[k])
                is Some,
    ensures
        crate::levenshtein::cell_cost(
            &(FeatureCostCalculator { system }),
            a,
            a,
            a.len() as int,
            a.len() as int,
        ) == Cost::Value(0),
        crate::levenshtein::trace(
            &(FeatureCostCalculator { system }),
            a,
            a,
            a.len() as int,
            a.len() as int,
        ) =~= Seq::new(
            a.len(),
            |k: int|
                crate::levenshtein::StepView {
                    action: crate::levenshtein::Action::EQ,
                    expected: Some(a[k]),
                    actual: Some(a[k]),
                    cost: Cost::Value(0),
                },
        ),
        crate::levenshtein::all_ok(&(FeatureCostCalculator { system }), a, a),
{
    let c = FeatureCostCalculator { system };
    assert forall|k: int| 0 <= k < a.len() implies #[trigger] c.eq_cost(Some(a[k]), Some(a[k]))
        == Cost::Value(0) by {}
    assert forall|k: int|
        0 <= k < a.len() implies crate::levenshtein::cost_pos(
        #[trigger] c.del_cost(Some(a[k])),
    ) by {
        let ev = system.entries.deep_view();
        crate::systems::lemma_find_symbol_bounds(ev, a[k], 0);
        let idx = spec_find_symbol(ev, a[k])->0;
        assert(crate::systems::aligned(ev[0].features, ev[idx].features));
        lemma_side_sum_pos(c.feats_of(a[k]));
    }
    assert forall|k: int|
        0 <= k < a.len() implies crate::levenshtein::cost_pos(
        #[trigger] c.ins_cost(Some(a[k])),
    ) by {
        let ev = system.entries.deep_view();
        crate::systems::lemma_find_symbol_bounds(ev, a[k], 0);
        let idx = spec_find_symbol(ev, a[k])->0;
        assert(crate::systems::aligned(ev[0].features, ev[idx].features));
        lemma_side_sum_pos(c.feats_of(a[k]));
    }
    crate::levenshtein::lemma_diff_self(&c, a, a.len() as int);
    assert forall|i: int, j: int|
        0 <= i <= a.len() && 0 <= j <= a.len() implies #[trigger] crate::levenshtein::cell_ok(
        &c,
        a,
        a,
        i,
        j,
    ) by {}
}

} // verus!
