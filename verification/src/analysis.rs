use vstd::prelude::*;

use crate::errors::{PhlDistanceError, PhlDistanceErrorView};
use crate::feature_distance::FeatureCostCalculator;
use crate::features::{FeatureValue, Symbol};
use crate::levenshtein::{
    all_ok, cell_cost, first_err, total_of, trace, Action, ComputeCost, Cost, LevenshteinStep,
    StepView,
};
use crate::phoneme_distance::PhonemeCostCalculator;
use crate::phoneme_tokenizer::{
    spec_filter_tokens, spec_split_from, PhonemeTokenizer,
};
use crate::systems::{spec_deltas_from, spec_find_symbol, FeatureDeltaView, PhonologicalFeatureSystem};

verus! {

/// One kind of alignment move, as the analysis layer reports it.
#[derive(Debug, Clone, Copy, PartialEq, Eq, Structural)]
pub enum AnalysisAction {
    EQ,
    DEL,
    INS,
    SUB,
}

/// The analysis move reporting an engine move.
pub open spec fn spec_action_of(a: Action) -> AnalysisAction {
    match a {
        Action::EQ => AnalysisAction::EQ,
        Action::DEL => AnalysisAction::DEL,
        Action::INS => AnalysisAction::INS,
        Action::SUB => AnalysisAction::SUB,
    }
}

impl AnalysisAction {
    pub fn of_action(a: Action) -> (r: AnalysisAction)
        ensures
            r == spec_action_of(a),
    {
        match a {
            Action::EQ => AnalysisAction::EQ,
            Action::DEL => AnalysisAction::DEL,
            Action::INS => AnalysisAction::INS,
            Action::SUB => AnalysisAction::SUB,
        }
    }
}

/// One alignment step as reported: the move, the consumed symbol text on
/// each side (empty where the step has none), the step's own cost, and the
/// normalizing length of the whole analysis.
#[derive(Debug, Clone)]
pub struct AnalysisStep {
    pub action: AnalysisAction,
    pub left: String,
    pub right: String,
    pub cost: Cost,
    pub length: usize,
}

/// The mathematical shape of an [`AnalysisStep`].
pub struct AnalysisStepView {
    pub action: AnalysisAction,
    pub left: Seq<char>,
    pub right: Seq<char>,
    pub cost: Cost,
    pub length: int,
}

impl View for AnalysisStep {
    type V = AnalysisStepView;

    open spec fn view(&self) -> AnalysisStepView {
        AnalysisStepView {
            action: self.action,
            left: self.left@,
            right: self.right@,
            cost: self.cost,
            length: self.length as int,
        }
    }
}

impl DeepView for AnalysisStep {
    type V = AnalysisStepView;

    open spec fn deep_view(&self) -> AnalysisStepView {
        self@
    }
}

/// The reported form of one engine step.
pub open spec fn spec_step_of(s: StepView, length: int) -> AnalysisStepView {
    AnalysisStepView {
        action: spec_action_of(s.action),
        left: match s.expected {
            Some(x) => x,
            None => Seq::empty(),
        },
        right: match s.actual {
            Some(x) => x,
            None => Seq::empty(),
        },
        cost: s.cost,
        length,
    }
}

/// The reported form of a whole step sequence.
pub open spec fn spec_steps_of(sv: Seq<StepView>, length: int) -> Seq<AnalysisStepView> {
    Seq::new(sv.len(), |i: int| spec_step_of(sv[i], length))
}

/// A compiled cost summary: the reported steps, their summed cost, and the
/// caller-supplied normalizing length. The error rate it determines is the
/// exact ratio [`Analysis::error_rate`].
#[derive(Debug, Clone)]
pub struct Analysis {
    pub steps: Vec<AnalysisStep>,
    pub cost: Cost,
    pub length: usize,
}

impl Analysis {
    /// The error rate, total cost over length, as an exact ratio of a
    /// quarter-unit numerator to a quarter-unit denominator: zero when the
    /// length is zero (a deliberate floor guarding the division), undefined
    /// when the total cost is not finite.
    pub fn error_rate(&self) -> (r: Option<(u64, u64)>)
        ensures
            self.length == 0 ==> r == Some((0u64, 1u64)),
            self.length != 0 ==> match self.cost {
                Cost::Value(q) => r matches Some(ratio) && ratio.0 == q && ratio.1 as int == (
                if 4 * self.length <= u64::MAX {
                    4 * (self.length as int)
                } else {
                    u64::MAX as int
                }),
                _ => r is None,
            },
    {
        if self.length == 0 {
            return Some((0, 1));
        }
        match self.cost {
            Cost::Value(q) => {
                let den = if self.length as u64 <= u64::MAX / 4 {
                     4 * (self.length as u64)
                } else {
                    u64::MAX
                };
                Some((q, den))
            },
            _ => None,
        }
    }
}

/// The caller-supplied length of an analysis: the token count scaled by a
/// per-token factor, saturating at the largest representable length.
pub open spec fn spec_length(tokens: nat, per: nat) -> nat {
    if tokens * per > usize::MAX {
        usize::MAX as nat
    } else {
        tokens * per
    }
}

fn scaled_length(tokens: usize, per: usize) -> (r: usize)
    ensures
        r as nat == spec_length(tokens as nat, per as nat),
{
    match tokens.checked_mul(per) {
        Some(x) => x,
        None => usize::MAX,
    }
}

/// Converts a step sequence and a length into a cost summary: each step is
/// reported with its symbols' texts, and the total cost is the sum of the
/// steps' own costs.
pub fn compile_analysis(levenshtein_steps: Vec<LevenshteinStep>, length: usize) -> (r: Analysis)
    ensures
        r.length == length,
        r.cost == total_of(levenshtein_steps.deep_view()),
        r.steps.deep_view() == spec_steps_of(levenshtein_steps.deep_view(), length as int),
{
    let ghost sv = levenshtein_steps.deep_view();
    let mut steps: Vec<AnalysisStep> = Vec::new();
    let mut cost = Cost::Value(0);
    let mut k: usize = 0;
    proof {
        assert(sv.take(0) =~= Seq::<StepView>::empty());
    }
    while k < levenshtein_steps.len()
        invariant
            k <= levenshtein_steps.len(),
            sv == levenshtein_steps.deep_view(),
            sv.len() == levenshtein_steps.len(),
            cost == total_of(sv.take(k as int)),
            steps.deep_view().len() == k,
            forall|q: int|
                0 <= q < k ==> steps.deep_view()[q] == spec_step_of(sv[q], length as int),
        decreases levenshtein_steps.len() - k,
    {
        let s = &levenshtein_steps[k];
        let left: String = match &s.expected {
            Some(x) => x.0.clone(),
            None => String::new(),
        };
        let right: String = match &s.actual {
            Some(x) => x.0.clone(),
            None => String::new(),
        };
        let step = AnalysisStep {
            action: AnalysisAction::of_action(s.action),
            left,
            right,
            cost: s.cost,
            length,
        };
        let ghost stv = step@;
        let ghost prev = steps.deep_view();
        steps.push(step);
        cost = cost.plus(s.cost);
        proof {
            assert(steps.deep_view() =~= prev.push(stv));
            assert(sv.take(k + 1).drop_last() =~= sv.take(k as int));
            assert(sv.take(k + 1).last() == sv[k as int]);
        }
        k = k + 1;
    }
    proof {
        assert(sv.take(k as int) =~= sv);
        assert(steps.deep_view() =~= spec_steps_of(sv, length as int));
    }
    Analysis { steps, cost, length }
}

/// How one feature dimension differs between the two sides of a delta
/// analysis, with the whole analysis's cost attached.
#[derive(Debug, Clone)]
pub struct FeatureDelta {
    pub name: String,
    pub left: FeatureValue,
    pub right: FeatureValue,
    pub cost: Cost,
}

/// The mathematical shape of an analysis [`FeatureDelta`].
pub struct AnalysisFeatureDeltaView {
    pub name: Seq<char>,
    pub left: FeatureValue,
    pub right: FeatureValue,
    pub cost: Cost,
}

impl View for FeatureDelta {
    type V = AnalysisFeatureDeltaView;

    open spec fn view(&self) -> AnalysisFeatureDeltaView {
        AnalysisFeatureDeltaView {
            name: self.name@,
            left: self.left,
            right: self.right,
            cost: self.cost,
        }
    }
}

impl DeepView for FeatureDelta {
    type V = AnalysisFeatureDeltaView;

    open spec fn deep_view(&self) -> AnalysisFeatureDeltaView {
        self@
    }
}

/// The analysis form of the system-level deltas, each carrying `cost`.
pub open spec fn spec_deltas_with_cost(ds: Seq<FeatureDeltaView>, cost: Cost) -> Seq<
    AnalysisFeatureDeltaView,
> {
    Seq::new(
        ds.len(),
        |i: int|
            AnalysisFeatureDeltaView {
                name: ds[i].name,
                left: ds[i].left,
                right: ds[i].right,
                cost,
            },
    )
}

/// The deltas of one pair of symbols, as reported.
#[derive(Debug, Clone)]
pub struct FeatureDeltaCollection {
    pub deltas: Vec<FeatureDelta>,
}

/// A feature system paired with its tokenizer: the unit of analysis work.
/// All methods are pure; a built analyzer may be shared freely.
pub struct PhlAnalyzer {
    pub system: PhonologicalFeatureSystem,
    pub tokenizer: PhonemeTokenizer,
}

impl PhlAnalyzer {
    /// The tokens the analyzer's tokenizer yields for a text.
    pub open spec fn tokens_of(&self, s: Seq<char>) -> Seq<Seq<char>> {
        spec_filter_tokens(
            spec_split_from(self.tokenizer.patterns.deep_view(), s, 0),
            self.tokenizer.separators.deep_view(),
            self.tokenizer.ignore_symbols.deep_view(),
        )
    }

    /// Builds the analyzer of a system: the system itself and its tokenizer.
    pub fn new(system: PhonologicalFeatureSystem) -> (r: PhlAnalyzer)
        ensures
            r.system == system,
            r.tokenizer.patterns.deep_view() == crate::phoneme_tokenizer::spec_patterns_of(
                &system,
            ),
            r.tokenizer.separators.deep_view() == system.separators.deep_view(),
            r.tokenizer.ignore_symbols.deep_view() == system.ignore_symbols.deep_view(),
    {
        let tokenizer = PhonemeTokenizer::build(&system);
        PhlAnalyzer { system, tokenizer }
    }

    /// Tokenizes both sides, aligns them under the given policy, and
    /// compiles the result into a cost summary whose length is the left
    /// token count scaled by `per_token`.
    pub fn analysis<C: ComputeCost>(
        &self,
        calculator: &C,
        left: &str,
        right: &str,
        per_token: usize,
    ) -> (r: Result<Analysis, PhlDistanceError>)
        requires
            calculator.wf(),
        ensures
            (r is Ok) == all_ok(calculator, self.tokens_of(left@), self.tokens_of(right@)),
            r matches Ok(an) ==> an.steps.deep_view() == spec_steps_of(
                trace(
                    calculator,
                    self.tokens_of(left@),
                    self.tokens_of(right@),
                    self.tokens_of(left@).len() as int,
                    self.tokens_of(right@).len() as int,
                ),
                spec_length(self.tokens_of(left@).len(), per_token as nat) as int,
            ) && an.cost == cell_cost(
                calculator,
                self.tokens_of(left@),
                self.tokens_of(right@),
                self.tokens_of(left@).len() as int,
                self.tokens_of(right@).len() as int,
            ) && an.length as nat == spec_length(self.tokens_of(left@).len(), per_token as nat),
            r matches Err(e) ==> first_err(calculator, self.tokens_of(left@), self.tokens_of(right@))
                == Some(e@),
    {
        let left_tokens = self.tokenizer.tokenize(left);
        let right_tokens = self.tokenizer.tokenize(right);
        let length = scaled_length(left_tokens.len(), per_token);
        let steps = match crate::levenshtein::diff_steps(calculator, &left_tokens, &right_tokens) {
            Ok(s) => s,
            Err(e) => {
                return Err(e);
            },
        };
        Ok(compile_analysis(steps, length))
    }

    /// The feature-weighted analysis of two texts: lengths are scaled by the
    /// system's feature-dimension count.
    pub fn feature_diff(&self, left: &str, right: &str) -> (r: Result<Analysis, PhlDistanceError>)
        ensures
            (r is Ok) == all_ok(
                &(FeatureCostCalculator { system: &self.system }),
                self.tokens_of(left@),
                self.tokens_of(right@),
            ),
            r matches Ok(an) ==> an.cost == cell_cost(
                &(FeatureCostCalculator { system: &self.system }),
                self.tokens_of(left@),
                self.tokens_of(right@),
                self.tokens_of(left@).len() as int,
                self.tokens_of(right@).len() as int,
            ) && an.steps.deep_view() == spec_steps_of(
                trace(
                    &(FeatureCostCalculator { system: &self.system }),
                    self.tokens_of(left@),
                    self.tokens_of(right@),
                    self.tokens_of(left@).len() as int,
                    self.tokens_of(right@).len() as int,
                ),
                spec_length(
                    self.tokens_of(left@).len(),
                    self.system.num_features as nat,
                ) as int,
            ) && an.length as nat == spec_length(
                self.tokens_of(left@).len(),
                self.system.num_features as nat,
            ),
            r matches Err(e) ==> first_err(
                &(FeatureCostCalculator { system: &self.system }),
                self.tokens_of(left@),
                self.tokens_of(right@),
            ) == Some(e@),
    {
        let calculator = FeatureCostCalculator::new(&self.system);
        self.analysis(&calculator, left, right, self.system.num_features)
    }

    /// The phoneme-identity analysis of two texts: lengths are the left
    /// token counts themselves. It always succeeds.
    pub fn phoneme_diff(&self, left: &str, right: &str) -> (r: Result<Analysis, PhlDistanceError>)
        ensures
            r matches Ok(an) && an.cost == cell_cost(
                &(PhonemeCostCalculator { system: &self.system }),
                self.tokens_of(left@),
                self.tokens_of(right@),
                self.tokens_of(left@).len() as int,
                self.tokens_of(right@).len() as int,
            ) && an.steps.deep_view() == spec_steps_of(
                trace(
                    &(PhonemeCostCalculator { system: &self.system }),
                    self.tokens_of(left@),
                    self.tokens_of(right@),
                    self.tokens_of(left@).len() as int,
                    self.tokens_of(right@).len() as int,
                ),
                spec_length(self.tokens_of(left@).len(), 1nat) as int,
            ) && an.length as nat == spec_length(self.tokens_of(left@).len(), 1nat),
    {
        let calculator = PhonemeCostCalculator::new(&self.system);
        proof {
            crate::levenshtein::lemma_always_ok(
                &calculator,
                self.tokens_of(left@),
                self.tokens_of(right@),
            );
        }
        self.analysis(&calculator, left, right, 1)
    }

    /// The per-dimension feature differences of two texts that each
    /// tokenize to exactly one symbol, with the feature analysis's total
    /// cost attached to every delta. Anything else is an invalid input; a
    /// zero-cost marker outside the table is reported as not found.
    pub fn feature_deltas(&self, left: &str, right: &str) -> (r: Result<
        FeatureDeltaCollection,
        PhlDistanceError,
    >)
        ensures
            !(self.tokens_of(left@).len() == 1 && self.tokens_of(right@).len() == 1) ==> (
            r matches Err(e) && e@ == PhlDistanceErrorView::InvalidInput(
                left@ + " / "@ + right@,
            )),
            self.tokens_of(left@).len() == 1 && self.tokens_of(right@).len() == 1 && !all_ok(
                &(FeatureCostCalculator { system: &self.system }),
                self.tokens_of(left@),
                self.tokens_of(right@),
            ) ==> (r matches Err(e) && first_err(
                &(FeatureCostCalculator { system: &self.system }),
                self.tokens_of(left@),
                self.tokens_of(right@),
            ) == Some(e@)),
            self.tokens_of(left@).len() == 1 && self.tokens_of(right@).len() == 1 && all_ok(
                &(FeatureCostCalculator { system: &self.system }),
                self.tokens_of(left@),
                self.tokens_of(right@),
            ) && spec_find_symbol(self.system.entries.deep_view(), self.tokens_of(left@)[0])
                is None ==> (r matches Err(e) && e@ == PhlDistanceErrorView::PhonemeNotFound(
                self.tokens_of(left@)[0],
            )),
            self.tokens_of(left@).len() == 1 && self.tokens_of(right@).len() == 1 && all_ok(
                &(FeatureCostCalculator { system: &self.system }),
                self.tokens_of(left@),
                self.tokens_of(right@),
            ) && spec_find_symbol(self.system.entries.deep_view(), self.tokens_of(left@)[0])
                is Some && spec_find_symbol(
                self.system.entries.deep_view(),
                self.tokens_of(right@)[0],
            ) is None ==> (r matches Err(e) && e@ == PhlDistanceErrorView::PhonemeNotFound(
                self.tokens_of(right@)[0],
            )),
            self.tokens_of(left@).len() == 1 && self.tokens_of(right@).len() == 1 && all_ok(
                &(FeatureCostCalculator { system: &self.system }),
                self.tokens_of(left@),
                self.tokens_of(right@),
            ) && spec_find_symbol(self.system.entries.deep_view(), self.tokens_of(left@)[0])
                is Some && spec_find_symbol(
                self.system.entries.deep_view(),
                self.tokens_of(right@)[0],
            ) is Some ==> r is Ok,
            r matches Ok(ds) ==> (self.tokens_of(left@).len() == 1 && self.tokens_of(
                right@,
            ).len() == 1 && (spec_find_symbol(
                self.system.entries.deep_view(),
                self.tokens_of(left@)[0],
            ) matches Some(li) && (spec_find_symbol(
                self.system.entries.deep_view(),
                self.tokens_of(right@)[0],
            ) matches Some(ri) && ds.deltas.deep_view() == spec_deltas_with_cost(
                spec_deltas_from(
                    self.system.entries.deep_view()[li].features,
                    self.system.entries.deep_view()[ri].features,
                    0,
                ),
                cell_cost(
                    &(FeatureCostCalculator { system: &self.system }),
                    self.tokens_of(left@),
                    self.tokens_of(right@),
                    1,
                    1,
                ),
            )))),
    {
        let left_tokens = self.tokenizer.tokenize(left);
        let right_tokens = self.tokenizer.tokenize(right);
        if left_tokens.len() != 1 || right_tokens.len() != 1 {
            let text = String::from_str(left).concat(" / ").concat(right);
            return Err(PhlDistanceError::InvalidInputError(text));
        }
        let analysis = match self.feature_diff(left, right) {
            Ok(an) => an,
            Err(e) => {
                return Err(e);
            },
        };
        let ds = match self.system.deltas(&left_tokens[0], &right_tokens[0]) {
            Ok(ds) => ds,
            Err(e) => {
                return Err(e);
            },
        };
        let ghost dsv = ds.deep_view();
        let mut deltas: Vec<FeatureDelta> = Vec::new();
        let mut k: usize = 0;
        while k < ds.len()
            invariant
                k <= ds.len(),
                dsv == ds.deep_view(),
                dsv.len() == ds.len(),
                deltas.deep_view().len() == k,
                forall|q: int|
                    0 <= q < k ==> deltas.deep_view()[q] == spec_deltas_with_cost(
                        dsv,
                        analysis.cost,
                    )[q],
            decreases ds.len() - k,
        {
            let d = &ds[k];
            let ghost prev = deltas.deep_view();
            let nd = FeatureDelta {
                name: d.name.clone(),
                left: d.left,
                right: d.right,
                cost: analysis.cost,
            };
            let ghost ndv = nd@;
            deltas.push(nd);
            proof {
                assert(deltas.deep_view() =~= prev.push(ndv));
            }
            k = k + 1;
        }
        proof {
            assert(deltas.deep_view() =~= spec_deltas_with_cost(dsv, analysis.cost));
        }
        Ok(FeatureDeltaCollection { deltas })
    }
}

} // verus!
