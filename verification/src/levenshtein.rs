use vstd::prelude::*;

use crate::errors::{PhlDistanceError, PhlDistanceErrorView};
use crate::features::Symbol;

verus! {

/// One kind of alignment move.
#[derive(Debug, Clone, Copy, PartialEq, Eq, Structural)]
pub enum Action {
    EQ,
    DEL,
    INS,
    SUB,
}

/// A non-negative alignment cost, totally ordered. Finite costs are counted
/// in quarters of a unit, the smallest amount the built-in policies can
/// produce, so that all cost arithmetic is exact; `Infinite` forbids a move;
/// `Unknown` is the cost of arithmetic over underspecified feature values,
/// and sorts above everything else while equalling itself — a defined design
/// choice, not an accident.
#[derive(Debug, Clone, Copy, PartialEq, Eq, Structural)]
pub enum Cost {
    Value(u64),
    Infinite,
    Unknown,
}

/// The total order on costs: finite by amount, then `Infinite`, then
/// `Unknown`.
pub open spec fn cost_le(a: Cost, b: Cost) -> bool {
    match (a, b) {
        (Cost::Value(x), Cost::Value(y)) => x <= y,
        (Cost::Value(_), _) => true,
        (Cost::Infinite, Cost::Value(_)) => false,
        (Cost::Infinite, _) => true,
        (Cost::Unknown, Cost::Unknown) => true,
        (Cost::Unknown, _) => false,
    }
}

/// Cost addition: finite amounts add (saturating at the largest
/// representable amount), `Infinite` absorbs finite costs, `Unknown` absorbs
/// everything.
pub open spec fn cost_add(a: Cost, b: Cost) -> Cost {
    match (a, b) {
        (Cost::Value(x), Cost::Value(y)) => Cost::Value(
            if x + y > u64::MAX {
                u64::MAX
            } else {
                (x + y) as u64
            },
        ),
        (Cost::Unknown, _) => Cost::Unknown,
        (_, Cost::Unknown) => Cost::Unknown,
        _ => Cost::Infinite,
    }
}

/// The cost order is a total order: reflexive, transitive, antisymmetric,
/// and any two costs compare — finite costs by amount, `Infinite` above all
/// of them, `Unknown` above everything while equalling itself.
pub proof fn lemma_cost_le_total_order(a: Cost, b: Cost, c: Cost)
    ensures
        cost_le(a, a),
        cost_le(a, b) || cost_le(b, a),
        cost_le(a, b) && cost_le(b, a) ==> a == b,
        cost_le(a, b) && cost_le(b, c) ==> cost_le(a, c),
{
}

pub proof fn lemma_cost_add_zero(a: Cost)
    ensures
        cost_add(a, Cost::Value(0)) == a,
        cost_add(Cost::Value(0), a) == a,
{
}

pub proof fn lemma_cost_add_assoc(a: Cost, b: Cost, c: Cost)
    ensures
        cost_add(cost_add(a, b), c) == cost_add(a, cost_add(b, c)),
{
}

impl Cost {
    /// The sum of two costs, per [`cost_add`].
    pub fn plus(self, other: Cost) -> (r: Cost)
        ensures
            r == cost_add(self, other),
    {
        match (self, other) {
            (Cost::Value(x), Cost::Value(y)) => {
                if x > u64::MAX - y {
                    Cost::Value(u64::MAX)
                } else {
                    Cost::Value(x + y)
                }
            },
            (Cost::Unknown, _) => Cost::Unknown,
            (_, Cost::Unknown) => Cost::Unknown,
            _ => Cost::Infinite,
        }
    }

    /// Whether this cost is at most `other`, per [`cost_le`].
    pub fn le(self, other: Cost) -> (r: bool)
        ensures
            r == cost_le(self, other),
    {
        match (self, other) {
            (Cost::Value(x), Cost::Value(y)) => x <= y,
            (Cost::Value(_), _) => true,
            (Cost::Infinite, Cost::Value(_)) => false,
            (Cost::Infinite, _) => true,
            (Cost::Unknown, Cost::Unknown) => true,
            (Cost::Unknown, _) => false,
        }
    }
}

/// One step of a backtraced alignment: the move, the symbol consumed on each
/// side (`EQ` and `SUB` carry both, `DEL` only the expected one, `INS` only
/// the actual one), and that move's own cost.
#[derive(Debug, Clone)]
pub struct LevenshteinStep {
    pub action: Action,
    pub expected: Option<Symbol>,
    pub actual: Option<Symbol>,
    pub cost: Cost,
}

/// The mathematical shape of a [`LevenshteinStep`].
pub struct StepView {
    pub action: Action,
    pub expected: Option<Seq<char>>,
    pub actual: Option<Seq<char>>,
    pub cost: Cost,
}

impl View for LevenshteinStep {
    type V = StepView;

    open spec fn view(&self) -> StepView {
        StepView {
            action: self.action,
            expected: self.expected.deep_view(),
            actual: self.actual.deep_view(),
            cost: self.cost,
        }
    }
}

impl DeepView for LevenshteinStep {
    type V = StepView;

    open spec fn deep_view(&self) -> StepView {
        self@
    }
}

/// Marker for the value types the engine can align; the library aligns
/// sequences of [`Symbol`].
pub trait Levenshteinable {

}

impl Levenshteinable for Symbol {

}

/// The view of an optional borrowed symbol.
pub open spec fn opt_view(s: Option<&Symbol>) -> Option<Seq<char>> {
    match s {
        Some(x) => Some(x@),
        None => None,
    }
}

/// A pluggable cost policy: one spec-level description and one executable
/// computation for each of the four moves. The executable methods must
/// return exactly what the spec functions describe — succeed exactly when
/// the `_ok` function says, with the `_cost` value, or fail with the `_err`
/// value.
pub trait ComputeCost: Sized {
    /// What the policy requires of itself before costs can be computed.
    spec fn wf(&self) -> bool;

    spec fn sub_ok(&self, a: Option<Seq<char>>, b: Option<Seq<char>>) -> bool;

    spec fn sub_cost(&self, a: Option<Seq<char>>, b: Option<Seq<char>>) -> Cost;

    spec fn sub_err(&self, a: Option<Seq<char>>, b: Option<Seq<char>>) -> PhlDistanceErrorView;

    spec fn del_ok(&self, a: Option<Seq<char>>) -> bool;

    spec fn del_cost(&self, a: Option<Seq<char>>) -> Cost;

    spec fn del_err(&self, a: Option<Seq<char>>) -> PhlDistanceErrorView;

    spec fn ins_ok(&self, b: Option<Seq<char>>) -> bool;

    spec fn ins_cost(&self, b: Option<Seq<char>>) -> Cost;

    spec fn ins_err(&self, b: Option<Seq<char>>) -> PhlDistanceErrorView;

    spec fn eq_ok(&self, a: Option<Seq<char>>, b: Option<Seq<char>>) -> bool;

    spec fn eq_cost(&self, a: Option<Seq<char>>, b: Option<Seq<char>>) -> Cost;

    spec fn eq_err(&self, a: Option<Seq<char>>, b: Option<Seq<char>>) -> PhlDistanceErrorView;

    fn cost_sub(&self, a: Option<&Symbol>, b: Option<&Symbol>) -> (r: Result<
        Cost,
        PhlDistanceError,
    >)
        requires
            self.wf(),
        ensures
            (r is Ok) == self.sub_ok(opt_view(a), opt_view(b)),
            r matches Ok(cost) ==> cost == self.sub_cost(opt_view(a), opt_view(b)),
            r matches Err(e) ==> e@ == self.sub_err(opt_view(a), opt_view(b)),
    ;

    fn cost_del(&self, a: Option<&Symbol>) -> (r: Result<Cost, PhlDistanceError>)
        requires
            self.wf(),
        ensures
            (r is Ok) == self.del_ok(opt_view(a)),
            r matches Ok(cost) ==> cost == self.del_cost(opt_view(a)),
            r matches Err(e) ==> e@ == self.del_err(opt_view(a)),
    ;

    fn cost_ins(&self, b: Option<&Symbol>) -> (r: Result<Cost, PhlDistanceError>)
        requires
            self.wf(),
        ensures
            (r is Ok) == self.ins_ok(opt_view(b)),
            r matches Ok(cost) ==> cost == self.ins_cost(opt_view(b)),
            r matches Err(e) ==> e@ == self.ins_err(opt_view(b)),
    ;

    fn cost_eq(&self, a: Option<&Symbol>, b: Option<&Symbol>) -> (r: Result<
        Cost,
        PhlDistanceError,
    >)
        requires
            self.wf(),
        ensures
            (r is Ok) == self.eq_ok(opt_view(a), opt_view(b)),
            r matches Ok(cost) ==> cost == self.eq_cost(opt_view(a), opt_view(b)),
            r matches Err(e) ==> e@ == self.eq_err(opt_view(a), opt_view(b)),
    ;
}

/// What every built-in policy charges for `EQ`: zero when both sides are
/// present and equal, forbidden otherwise.
pub open spec fn spec_default_eq_cost(a: Option<Seq<char>>, b: Option<Seq<char>>) -> Cost {
    match (a, b) {
        (Some(x), Some(y)) => if x == y {
            Cost::Value(0)
        } else {
            Cost::Infinite
        },
        _ => Cost::Infinite,
    }
}

/// The shared `EQ` cost computation, per [`spec_default_eq_cost`]; it never
/// fails.
pub fn default_cost_eq(a: Option<&Symbol>, b: Option<&Symbol>) -> (r: Cost)
    ensures
        r == spec_default_eq_cost(opt_view(a), opt_view(b)),
{
    match (a, b) {
        (Some(x), Some(y)) => {
            if crate::features::str_eq(x.0.as_str(), y.0.as_str()) {
                Cost::Value(0)
            } else {
                Cost::Infinite
            }
        },
        _ => Cost::Infinite,
    }
}

// ---------------------------------------------------------------------------
// The dynamic-programming table, as mathematics
// ---------------------------------------------------------------------------
/// `x` clipped below at zero, the termination measure of the table recursions.
pub open spec fn nonneg(x: int) -> int {
    if x > 0 {
        x
    } else {
        0
    }
}

/// The cumulative cost of table cell `(i, j)`: the cheapest of the four
/// candidate moves, each charged by the policy and added to the predecessor
/// cell, with ties broken in the order `DEL`, `INS`, `EQ`, `SUB`. The first
/// row and column admit only `INS` and `DEL`.
pub open spec fn cell_cost<C: ComputeCost>(
    c: &C,
    a: Seq<Seq<char>>,
    b: Seq<Seq<char>>,
    i: int,
    j: int,
) -> Cost
    decreases nonneg(i) + nonneg(j),
{
    if i <= 0 && j <= 0 {
        Cost::Value(0)
    } else if j <= 0 {
        cost_add(cell_cost(c, a, b, i - 1, 0), c.del_cost(Some(a[i - 1])))
    } else if i <= 0 {
        cost_add(cell_cost(c, a, b, 0, j - 1), c.ins_cost(Some(b[j - 1])))
    } else {
        let kd = cost_add(cell_cost(c, a, b, i - 1, j), c.del_cost(Some(a[i - 1])));
        let ki = cost_add(cell_cost(c, a, b, i, j - 1), c.ins_cost(Some(b[j - 1])));
        let ke = cost_add(cell_cost(c, a, b, i - 1, j - 1), c.eq_cost(Some(a[i - 1]), Some(b[j - 1])));
        let ks = cost_add(
            cell_cost(c, a, b, i - 1, j - 1),
            c.sub_cost(Some(a[i - 1]), Some(b[j - 1])),
        );
        if cost_le(kd, ki) && cost_le(kd, ke) && cost_le(kd, ks) {
            kd
        } else if cost_le(ki, ke) && cost_le(ki, ks) {
            ki
        } else if cost_le(ke, ks) {
            ke
        } else {
            ks
        }
    }
}

/// The winning move of table cell `(i, j)`, under the same tie order.
pub open spec fn cell_action<C: ComputeCost>(
    c: &C,
    a: Seq<Seq<char>>,
    b: Seq<Seq<char>>,
    i: int,
    j: int,
) -> Action {
    if j <= 0 {
        Action::DEL
    } else if i <= 0 {
        Action::INS
    } else {
        let kd = cost_add(cell_cost(c, a, b, i - 1, j), c.del_cost(Some(a[i - 1])));
        let ki = cost_add(cell_cost(c, a, b, i, j - 1), c.ins_cost(Some(b[j - 1])));
        let ke = cost_add(cell_cost(c, a, b, i - 1, j - 1), c.eq_cost(Some(a[i - 1]), Some(b[j - 1])));
        let ks = cost_add(
            cell_cost(c, a, b, i - 1, j - 1),
            c.sub_cost(Some(a[i - 1]), Some(b[j - 1])),
        );
        if cost_le(kd, ki) && cost_le(kd, ke) && cost_le(kd, ks) {
            Action::DEL
        } else if cost_le(ki, ke) && cost_le(ki, ks) {
            Action::INS
        } else if cost_le(ke, ks) {
            Action::EQ
        } else {
            Action::SUB
        }
    }
}

/// The winning move's own cost at cell `(i, j)`.
pub open spec fn step_cost<C: ComputeCost>(
    c: &C,
    a: Seq<Seq<char>>,
    b: Seq<Seq<char>>,
    i: int,
    j: int,
) -> Cost {
    match cell_action(c, a, b, i, j) {
        Action::DEL => c.del_cost(Some(a[i - 1])),
        Action::INS => c.ins_cost(Some(b[j - 1])),
        Action::EQ => c.eq_cost(Some(a[i - 1]), Some(b[j - 1])),
        Action::SUB => c.sub_cost(Some(a[i - 1]), Some(b[j - 1])),
    }
}

/// The predecessor cell a move leads back to: `SUB` and `EQ` move
/// diagonally, `DEL` up, `INS` left.
pub open spec fn prev_of(act: Action, i: int, j: int) -> (int, int) {
    match act {
        Action::DEL => (i - 1, j),
        Action::INS => (i, j - 1),
        _ => (i - 1, j - 1),
    }
}

/// Whether all policy calls made at cell `(i, j)` succeed.
pub open spec fn cell_ok<C: ComputeCost>(
    c: &C,
    a: Seq<Seq<char>>,
    b: Seq<Seq<char>>,
    i: int,
    j: int,
) -> bool {
    if i <= 0 && j <= 0 {
        true
    } else if j <= 0 {
        c.del_ok(Some(a[i - 1]))
    } else if i <= 0 {
        c.ins_ok(Some(b[j - 1]))
    } else {
        &&& c.del_ok(Some(a[i - 1]))
        &&& c.ins_ok(Some(b[j - 1]))
        &&& c.eq_ok(Some(a[i - 1]), Some(b[j - 1]))
        &&& c.sub_ok(Some(a[i - 1]), Some(b[j - 1]))
    }
}

/// Whether every policy call of the whole table succeeds: exactly then the
/// diff returns a step list.
pub open spec fn all_ok<C: ComputeCost>(c: &C, a: Seq<Seq<char>>, b: Seq<Seq<char>>) -> bool {
    forall|i: int, j: int|
        0 <= i <= a.len() && 0 <= j <= b.len() ==> #[trigger] cell_ok(c, a, b, i, j)
}

/// The error reported at a failing cell: the first failing call in the order
/// `DEL`, `INS`, `EQ`, `SUB`.
pub open spec fn cell_err<C: ComputeCost>(
    c: &C,
    a: Seq<Seq<char>>,
    b: Seq<Seq<char>>,
    i: int,
    j: int,
) -> PhlDistanceErrorView {
    if j <= 0 {
        c.del_err(Some(a[i - 1]))
    } else if i <= 0 {
        c.ins_err(Some(b[j - 1]))
    } else if !c.del_ok(Some(a[i - 1])) {
        c.del_err(Some(a[i - 1]))
    } else if !c.ins_ok(Some(b[j - 1])) {
        c.ins_err(Some(b[j - 1]))
    } else if !c.eq_ok(Some(a[i - 1]), Some(b[j - 1])) {
        c.eq_err(Some(a[i - 1]), Some(b[j - 1]))
    } else {
        c.sub_err(Some(a[i - 1]), Some(b[j - 1]))
    }
}

/// The first failing cell at or after `(i, j)` in row-major order, the order
/// the table is filled in.
pub open spec fn first_bad_from<C: ComputeCost>(
    c: &C,
    a: Seq<Seq<char>>,
    b: Seq<Seq<char>>,
    i: int,
    j: int,
) -> Option<(int, int)>
    decreases a.len() - i, b.len() + 1 - j,
{
    if i < 0 || j < 0 || i > a.len() || j > b.len() {
        None
    } else if !cell_ok(c, a, b, i, j) {
        Some((i, j))
    } else if j < b.len() {
        first_bad_from(c, a, b, i, j + 1)
    } else if i < a.len() {
        first_bad_from(c, a, b, i + 1, 0)
    } else {
        None
    }
}

/// The error a diff reports, if any: the one of the first failing cell.
pub open spec fn first_err<C: ComputeCost>(c: &C, a: Seq<Seq<char>>, b: Seq<Seq<char>>) -> Option<
    PhlDistanceErrorView,
> {
    match first_bad_from(c, a, b, 0, 0) {
        Some(ij) => Some(cell_err(c, a, b, ij.0, ij.1)),
        None => None,
    }
}

/// The backtraced path from the origin to cell `(i, j)`: the winning moves,
/// in forward order, each carrying the consumed symbols and its own cost.
pub open spec fn trace<C: ComputeCost>(
    c: &C,
    a: Seq<Seq<char>>,
    b: Seq<Seq<char>>,
    i: int,
    j: int,
) -> Seq<StepView>
    decreases nonneg(i) + nonneg(j),
{
    if i <= 0 && j <= 0 {
        Seq::empty()
    } else {
        let act = cell_action(c, a, b, i, j);
        let sv = StepView {
            action: act,
            expected: if act == Action::INS {
                None
            } else {
                Some(a[i - 1])
            },
            actual: if act == Action::DEL {
                None
            } else {
                Some(b[j - 1])
            },
            cost: step_cost(c, a, b, i, j),
        };
        trace(c, a, b, prev_of(act, i, j).0, prev_of(act, i, j).1) + seq![sv]
    }
}

/// The expected-side symbols a step list consumes, in order.
pub open spec fn expected_of(steps: Seq<StepView>) -> Seq<Seq<char>>
    decreases steps.len(),
{
    if steps.len() == 0 {
        Seq::empty()
    } else {
        let rest = expected_of(steps.drop_last());
        match steps.last().expected {
            Some(x) => rest + seq![x],
            None => rest,
        }
    }
}

/// The actual-side symbols a step list consumes, in order.
pub open spec fn actual_of(steps: Seq<StepView>) -> Seq<Seq<char>>
    decreases steps.len(),
{
    if steps.len() == 0 {
        Seq::empty()
    } else {
        let rest = actual_of(steps.drop_last());
        match steps.last().actual {
            Some(x) => rest + seq![x],
            None => rest,
        }
    }
}

/// The sum of the steps' own costs.
pub open spec fn total_of(steps: Seq<StepView>) -> Cost
    decreases steps.len(),
{
    if steps.len() == 0 {
        Cost::Value(0)
    } else {
        cost_add(total_of(steps.drop_last()), steps.last().cost)
    }
}

/// Each cell's cumulative cost is its predecessor's plus the winning move's
/// own cost.
pub proof fn lemma_cell_step<C: ComputeCost>(
    c: &C,
    a: Seq<Seq<char>>,
    b: Seq<Seq<char>>,
    i: int,
    j: int,
)
    requires
        0 <= i <= a.len(),
        0 <= j <= b.len(),
        !(i == 0 && j == 0),
    ensures
        cell_cost(c, a, b, i, j) == cost_add(
            cell_cost(
                c,
                a,
                b,
                prev_of(cell_action(c, a, b, i, j), i, j).0,
                prev_of(cell_action(c, a, b, i, j), i, j).1,
            ),
            step_cost(c, a, b, i, j),
        ),
{
}

/// What the backtraced path consumes and costs: its expected side is exactly
/// `a.take(i)`, its actual side exactly `b.take(j)`, and its summed step
/// costs are the cell's cumulative cost.
#[verifier::rlimit(50)]
pub proof fn lemma_trace_shape<C: ComputeCost>(
    c: &C,
    a: Seq<Seq<char>>,
    b: Seq<Seq<char>>,
    i: int,
    j: int,
)
    requires
        0 <= i <= a.len(),
        0 <= j <= b.len(),
    ensures
        expected_of(trace(c, a, b, i, j)) == a.take(i),
        actual_of(trace(c, a, b, i, j)) == b.take(j),
        total_of(trace(c, a, b, i, j)) == cell_cost(c, a, b, i, j),
    decreases nonneg(i) + nonneg(j),
{
    if i == 0 && j == 0 {
        assert(a.take(0) =~= Seq::<Seq<char>>::empty());
        assert(b.take(0) =~= Seq::<Seq<char>>::empty());
    } else {
        let act = cell_action(c, a, b, i, j);
        let pi = prev_of(act, i, j).0;
        let pj = prev_of(act, i, j).1;
        let tr = trace(c, a, b, i, j);
        assert(0 <= pi <= a.len() && 0 <= pj <= b.len());
        lemma_trace_shape(c, a, b, pi, pj);
        lemma_cell_step(c, a, b, i, j);
        assert(tr.drop_last() =~= trace(c, a, b, pi, pj));
        match act {
            Action::DEL => {
                assert(a.take(i) =~= a.take(i - 1) + seq![a[i - 1]]);
                assert(b.take(j) =~= b.take(j));
            },
            Action::INS => {
                assert(b.take(j) =~= b.take(j - 1) + seq![b[j - 1]]);
            },
            _ => {
                assert(a.take(i) =~= a.take(i - 1) + seq![a[i - 1]]);
                assert(b.take(j) =~= b.take(j - 1) + seq![b[j - 1]]);
            },
        }
    }
}

/// Row-major scanning finds nothing exactly when every cell at or after the
/// scan start is fine.
pub proof fn lemma_first_bad_none<C: ComputeCost>(
    c: &C,
    a: Seq<Seq<char>>,
    b: Seq<Seq<char>>,
    i: int,
    j: int,
)
    requires
        0 <= i <= a.len(),
        0 <= j <= b.len(),
    ensures
        first_bad_from(c, a, b, i, j) is None <==> forall|p: int, q: int|
            0 <= p <= a.len() && 0 <= q <= b.len() && (p > i || (p == i && q >= j))
                ==> #[trigger] cell_ok(c, a, b, p, q),
    decreases a.len() - i, b.len() + 1 - j,
{
    if cell_ok(c, a, b, i, j) {
        if j < b.len() {
            lemma_first_bad_none(c, a, b, i, j + 1);
        } else if i < a.len() {
            lemma_first_bad_none(c, a, b, i + 1, 0);
        }
    }
}

/// Row-major scanning started anywhere at or before a failing cell, with all
/// cells between fine, reports exactly that cell.
pub proof fn lemma_first_bad_here<C: ComputeCost>(
    c: &C,
    a: Seq<Seq<char>>,
    b: Seq<Seq<char>>,
    i0: int,
    j0: int,
    i: int,
    j: int,
)
    requires
        0 <= i0 <= a.len(),
        0 <= j0 <= b.len(),
        0 <= i <= a.len(),
        0 <= j <= b.len(),
        i0 < i || (i0 == i && j0 <= j),
        !cell_ok(c, a, b, i, j),
        forall|p: int, q: int|
            0 <= p <= a.len() && 0 <= q <= b.len() && (p < i || (p == i && q < j))
                ==> #[trigger] cell_ok(c, a, b, p, q),
    ensures
        first_bad_from(c, a, b, i0, j0) == Some((i, j)),
    decreases a.len() - i0, b.len() + 1 - j0,
{
    if i0 == i && j0 == j {
    } else {
        assert(cell_ok(c, a, b, i0, j0));
        if j0 < b.len() {
            lemma_first_bad_here(c, a, b, i0, j0 + 1, i, j);
        } else {
            assert(i0 < a.len());
            lemma_first_bad_here(c, a, b, i0 + 1, 0, i, j);
        }
    }
}

// ---------------------------------------------------------------------------
// Optimality of the table
// ---------------------------------------------------------------------------
/// Whether a sequence of moves is a valid alignment path from the origin to
/// cell `(i, j)`: read from its end, each move steps back to its
/// predecessor cell without leaving the table.
pub open spec fn path_ok(acts: Seq<Action>, i: int, j: int) -> bool
    decreases acts.len(),
{
    if acts.len() == 0 {
        i == 0 && j == 0
    } else {
        match acts.last() {
            Action::DEL => i >= 1 && path_ok(acts.drop_last(), i - 1, j),
            Action::INS => j >= 1 && path_ok(acts.drop_last(), i, j - 1),
            _ => i >= 1 && j >= 1 && path_ok(acts.drop_last(), i - 1, j - 1),
        }
    }
}

/// What the policy charges one move of a path ending at cell `(i, j)`.
pub open spec fn act_cost<C: ComputeCost>(
    c: &C,
    a: Seq<Seq<char>>,
    b: Seq<Seq<char>>,
    act: Action,
    i: int,
    j: int,
) -> Cost {
    match act {
        Action::DEL => c.del_cost(Some(a[i - 1])),
        Action::INS => c.ins_cost(Some(b[j - 1])),
        Action::EQ => c.eq_cost(Some(a[i - 1]), Some(b[j - 1])),
        Action::SUB => c.sub_cost(Some(a[i - 1]), Some(b[j - 1])),
    }
}

/// The total cost a path ending at cell `(i, j)` is charged.
pub open spec fn path_cost<C: ComputeCost>(
    c: &C,
    a: Seq<Seq<char>>,
    b: Seq<Seq<char>>,
    acts: Seq<Action>,
    i: int,
    j: int,
) -> Cost
    decreases acts.len(),
{
    if acts.len() == 0 {
        Cost::Value(0)
    } else {
        let act = acts.last();
        let pi = prev_of(act, i, j).0;
        let pj = prev_of(act, i, j).1;
        cost_add(path_cost(c, a, b, acts.drop_last(), pi, pj), act_cost(c, a, b, act, i, j))
    }
}

/// Adding the same cost on both sides keeps the order.
pub proof fn lemma_cost_add_mono(x: Cost, y: Cost, z: Cost)
    requires
        cost_le(x, y),
    ensures
        cost_le(cost_add(x, z), cost_add(y, z)),
{
}

/// Each cell's cost is at most any of its candidate moves' costs.
pub proof fn lemma_cell_le_candidates<C: ComputeCost>(
    c: &C,
    a: Seq<Seq<char>>,
    b: Seq<Seq<char>>,
    i: int,
    j: int,
)
    requires
        1 <= i <= a.len(),
        1 <= j <= b.len(),
    ensures
        cost_le(
            cell_cost(c, a, b, i, j),
            cost_add(cell_cost(c, a, b, i - 1, j), c.del_cost(Some(a[i - 1]))),
        ),
        cost_le(
            cell_cost(c, a, b, i, j),
            cost_add(cell_cost(c, a, b, i, j - 1), c.ins_cost(Some(b[j - 1]))),
        ),
        cost_le(
            cell_cost(c, a, b, i, j),
            cost_add(cell_cost(c, a, b, i - 1, j - 1), c.eq_cost(Some(a[i - 1]), Some(b[j - 1]))),
        ),
        cost_le(
            cell_cost(c, a, b, i, j),
            cost_add(cell_cost(c, a, b, i - 1, j - 1), c.sub_cost(Some(a[i - 1]), Some(b[j - 1]))),
        ),
{
}

/// Optimality of the table: no valid alignment path to cell `(i, j)` is
/// charged less than that cell's cumulative cost.
pub proof fn lemma_cell_minimal<C: ComputeCost>(
    c: &C,
    a: Seq<Seq<char>>,
    b: Seq<Seq<char>>,
    acts: Seq<Action>,
    i: int,
    j: int,
)
    requires
        0 <= i <= a.len(),
        0 <= j <= b.len(),
        path_ok(acts, i, j),
    ensures
        cost_le(cell_cost(c, a, b, i, j), path_cost(c, a, b, acts, i, j)),
    decreases acts.len(),
{
    if acts.len() > 0 {
        let act = acts.last();
        let pi = prev_of(act, i, j).0;
        let pj = prev_of(act, i, j).1;
        lemma_cell_minimal(c, a, b, acts.drop_last(), pi, pj);
        lemma_cost_add_mono(
            cell_cost(c, a, b, pi, pj),
            path_cost(c, a, b, acts.drop_last(), pi, pj),
            act_cost(c, a, b, act, i, j),
        );
        if i >= 1 && j >= 1 {
            lemma_cell_le_candidates(c, a, b, i, j);
        }
        lemma_cost_le_total_order(
            cell_cost(c, a, b, i, j),
            cost_add(cell_cost(c, a, b, pi, pj), act_cost(c, a, b, act, i, j)),
            path_cost(c, a, b, acts, i, j),
        );
    }
}

/// What a successful diff returns is an optimal-cost alignment: its summed
/// step costs are the bottom-right cell's cumulative cost, and no valid
/// alignment path of the two whole sequences is charged less.
pub proof fn lemma_diff_minimal<C: ComputeCost>(
    c: &C,
    a: Seq<Seq<char>>,
    b: Seq<Seq<char>>,
    acts: Seq<Action>,
)
    requires
        path_ok(acts, a.len() as int, b.len() as int),
    ensures
        cost_le(
            cell_cost(c, a, b, a.len() as int, b.len() as int),
            path_cost(c, a, b, acts, a.len() as int, b.len() as int),
        ),
{
    lemma_cell_minimal(c, a, b, acts, a.len() as int, b.len() as int);
}

/// The moves of a step sequence, in order.
pub open spec fn actions_of(steps: Seq<StepView>) -> Seq<Action> {
    steps.map_values(|s: StepView| s.action)
}

/// The backtraced path really is a valid alignment path, and is charged
/// exactly its summed step costs; with [`lemma_cell_minimal`], no valid path
/// beats it.
pub proof fn lemma_trace_is_path<C: ComputeCost>(
    c: &C,
    a: Seq<Seq<char>>,
    b: Seq<Seq<char>>,
    i: int,
    j: int,
)
    requires
        0 <= i <= a.len(),
        0 <= j <= b.len(),
    ensures
        path_ok(actions_of(trace(c, a, b, i, j)), i, j),
        path_cost(c, a, b, actions_of(trace(c, a, b, i, j)), i, j) == total_of(trace(c, a, b, i, j)),
    decreases nonneg(i) + nonneg(j),
{
    let tr = trace(c, a, b, i, j);
    let acts = actions_of(tr);
    if i == 0 && j == 0 {
        assert(acts =~= Seq::<Action>::empty());
    } else {
        let act = cell_action(c, a, b, i, j);
        let pi = prev_of(act, i, j).0;
        let pj = prev_of(act, i, j).1;
        lemma_trace_is_path(c, a, b, pi, pj);
        assert(tr.drop_last() =~= trace(c, a, b, pi, pj));
        assert(acts.drop_last() =~= actions_of(trace(c, a, b, pi, pj)));
        assert(acts.last() == act);
        assert(act_cost(c, a, b, act, i, j) == step_cost(c, a, b, i, j));
    }
}

// ---------------------------------------------------------------------------
// Laws of the table
// ---------------------------------------------------------------------------
/// Strict positivity of a cost: more than zero.
pub open spec fn cost_pos(x: Cost) -> bool {
    !cost_le(x, Cost::Value(0))
}

/// A sum is positive as soon as either summand is.
pub proof fn lemma_cost_add_pos_either(a: Cost, b: Cost)
    requires
        cost_pos(a) || cost_pos(b),
    ensures
        cost_pos(cost_add(a, b)),
{
}

/// The diagonal law behind aligning a sequence with itself: when equality is
/// free on every symbol of `a` and deleting or inserting any of them costs
/// something, every diagonal cell costs nothing and chooses `EQ`, and every
/// off-diagonal cell costs something.
pub proof fn lemma_self_cell<C: ComputeCost>(c: &C, a: Seq<Seq<char>>, i: int, j: int)
    requires
        0 <= i <= a.len(),
        0 <= j <= a.len(),
        forall|k: int|
            0 <= k < a.len() ==> #[trigger] c.eq_cost(Some(a[k]), Some(a[k])) == Cost::Value(0),
        forall|k: int| 0 <= k < a.len() ==> cost_pos(#[trigger] c.del_cost(Some(a[k]))),
        forall|k: int| 0 <= k < a.len() ==> cost_pos(#[trigger] c.ins_cost(Some(a[k]))),
    ensures
        i == j ==> cell_cost(c, a, a, i, j) == Cost::Value(0),
        i == j && i > 0 ==> cell_action(c, a, a, i, j) == Action::EQ,
        i != j ==> cost_pos(cell_cost(c, a, a, i, j)),
    decreases i + j,
{
    if i == 0 && j == 0 {
    } else if j == 0 {
        lemma_self_cell(c, a, i - 1, 0);
        lemma_cost_add_pos_either(cell_cost(c, a, a, i - 1, 0), c.del_cost(Some(a[i - 1])));
    } else if i == 0 {
        lemma_self_cell(c, a, 0, j - 1);
        lemma_cost_add_pos_either(cell_cost(c, a, a, 0, j - 1), c.ins_cost(Some(a[j - 1])));
    } else {
        lemma_self_cell(c, a, i - 1, j);
        lemma_self_cell(c, a, i, j - 1);
        lemma_self_cell(c, a, i - 1, j - 1);
        let kd = cost_add(cell_cost(c, a, a, i - 1, j), c.del_cost(Some(a[i - 1])));
        let ki = cost_add(cell_cost(c, a, a, i, j - 1), c.ins_cost(Some(a[j - 1])));
        lemma_cost_add_pos_either(cell_cost(c, a, a, i - 1, j), c.del_cost(Some(a[i - 1])));
        lemma_cost_add_pos_either(cell_cost(c, a, a, i, j - 1), c.ins_cost(Some(a[j - 1])));
        if i == j {
            lemma_cost_add_zero(c.eq_cost(Some(a[i - 1]), Some(a[j - 1])));
        } else {
            let ke = cost_add(
                cell_cost(c, a, a, i - 1, j - 1),
                c.eq_cost(Some(a[i - 1]), Some(a[j - 1])),
            );
            let ks = cost_add(
                cell_cost(c, a, a, i - 1, j - 1),
                c.sub_cost(Some(a[i - 1]), Some(a[j - 1])),
            );
            lemma_cost_add_pos_either(
                cell_cost(c, a, a, i - 1, j - 1),
                c.eq_cost(Some(a[i - 1]), Some(a[j - 1])),
            );
            lemma_cost_add_pos_either(
                cell_cost(c, a, a, i - 1, j - 1),
                c.sub_cost(Some(a[i - 1]), Some(a[j - 1])),
            );
        }
    }
}

/// Aligning a sequence with itself: under the same premises, the whole
/// alignment costs nothing and is one `EQ` step per symbol, each free.
pub proof fn lemma_diff_self<C: ComputeCost>(c: &C, a: Seq<Seq<char>>, i: int)
    requires
        0 <= i <= a.len(),
        forall|k: int|
            0 <= k < a.len() ==> #[trigger] c.eq_cost(Some(a[k]), Some(a[k])) == Cost::Value(0),
        forall|k: int| 0 <= k < a.len() ==> cost_pos(#[trigger] c.del_cost(Some(a[k]))),
        forall|k: int| 0 <= k < a.len() ==> cost_pos(#[trigger] c.ins_cost(Some(a[k]))),
    ensures
        cell_cost(c, a, a, i, i) == Cost::Value(0),
        trace(c, a, a, i, i) =~= Seq::new(
            i as nat,
            |k: int|
                StepView {
                    action: Action::EQ,
                    expected: Some(a[k]),
                    actual: Some(a[k]),
                    cost: Cost::Value(0),
                },
        ),
    decreases i,
{
    lemma_self_cell(c, a, i, i);
    if i > 0 {
        lemma_diff_self(c, a, i - 1);
        assert(cell_action(c, a, a, i, i) == Action::EQ);
        assert(step_cost(c, a, a, i, i) == c.eq_cost(Some(a[i - 1]), Some(a[i - 1])));
    }
}

/// Aligning two empty sequences: the table is its origin cell alone, every
/// policy call trivially succeeds, the step list is empty and costs nothing.
pub proof fn lemma_diff_empty<C: ComputeCost>(c: &C, a: Seq<Seq<char>>, b: Seq<Seq<char>>)
    requires
        a.len() == 0,
        b.len() == 0,
    ensures
        all_ok(c, a, b),
        trace(c, a, b, a.len() as int, b.len() as int) == Seq::<StepView>::empty(),
        cell_cost(c, a, b, a.len() as int, b.len() as int) == Cost::Value(0),
        total_of(trace(c, a, b, a.len() as int, b.len() as int)) == Cost::Value(0),
{
    assert forall|i: int, j: int|
        0 <= i <= a.len() && 0 <= j <= b.len() implies #[trigger] cell_ok(c, a, b, i, j) by {
        assert(i == 0 && j == 0);
    }
}

/// The transposition law behind distance symmetry: when the policy is
/// symmetric in its symbol arguments — substitution and equality commute,
/// deletion and insertion charge alike — every cell of the table for
/// `(a, b)` equals the transposed cell of the table for `(b, a)`, succeeding
/// calls included.
pub proof fn lemma_symmetric_cell<C: ComputeCost>(
    c: &C,
    a: Seq<Seq<char>>,
    b: Seq<Seq<char>>,
    i: int,
    j: int,
)
    requires
        forall|x: Option<Seq<char>>, y: Option<Seq<char>>| #[trigger] c.sub_cost(x, y)
            == c.sub_cost(y, x),
        forall|x: Option<Seq<char>>, y: Option<Seq<char>>| #[trigger] c.sub_ok(x, y) == c.sub_ok(
            y,
            x,
        ),
        forall|x: Option<Seq<char>>, y: Option<Seq<char>>| #[trigger] c.eq_cost(x, y) == c.eq_cost(
            y,
            x,
        ),
        forall|x: Option<Seq<char>>, y: Option<Seq<char>>| #[trigger] c.eq_ok(x, y) == c.eq_ok(
            y,
            x,
        ),
        forall|x: Option<Seq<char>>| #[trigger] c.del_cost(x) == c.ins_cost(x),
        forall|x: Option<Seq<char>>| #[trigger] c.del_ok(x) == c.ins_ok(x),
    ensures
        cell_cost(c, a, b, i, j) == cell_cost(c, b, a, j, i),
        cell_ok(c, a, b, i, j) == cell_ok(c, b, a, j, i),
    decreases nonneg(i) + nonneg(j),
{
    if i <= 0 && j <= 0 {
    } else if j <= 0 {
        lemma_symmetric_cell(c, a, b, i - 1, 0);
    } else if i <= 0 {
        lemma_symmetric_cell(c, a, b, 0, j - 1);
    } else {
        lemma_symmetric_cell(c, a, b, i - 1, j);
        lemma_symmetric_cell(c, a, b, i, j - 1);
        lemma_symmetric_cell(c, a, b, i - 1, j - 1);
    }
}

/// Distance is commutative for symmetric policies: the two whole tables
/// agree at their far corners, and one diff succeeds exactly when the other
/// does.
pub proof fn lemma_diff_symmetric<C: ComputeCost>(c: &C, a: Seq<Seq<char>>, b: Seq<Seq<char>>)
    requires
        forall|x: Option<Seq<char>>, y: Option<Seq<char>>| #[trigger] c.sub_cost(x, y)
            == c.sub_cost(y, x),
        forall|x: Option<Seq<char>>, y: Option<Seq<char>>| #[trigger] c.sub_ok(x, y) == c.sub_ok(
            y,
            x,
        ),
        forall|x: Option<Seq<char>>, y: Option<Seq<char>>| #[trigger] c.eq_cost(x, y) == c.eq_cost(
            y,
            x,
        ),
        forall|x: Option<Seq<char>>, y: Option<Seq<char>>| #[trigger] c.eq_ok(x, y) == c.eq_ok(
            y,
            x,
        ),
        forall|x: Option<Seq<char>>| #[trigger] c.del_cost(x) == c.ins_cost(x),
        forall|x: Option<Seq<char>>| #[trigger] c.del_ok(x) == c.ins_ok(x),
    ensures
        cell_cost(c, a, b, a.len() as int, b.len() as int) == cell_cost(
            c,
            b,
            a,
            b.len() as int,
            a.len() as int,
        ),
        all_ok(c, a, b) == all_ok(c, b, a),
{
    lemma_symmetric_cell(c, a, b, a.len() as int, b.len() as int);
    if all_ok(c, a, b) {
        assert forall|i: int, j: int|
            0 <= i <= b.len() && 0 <= j <= a.len() implies #[trigger] cell_ok(c, b, a, i, j) by {
            lemma_symmetric_cell(c, a, b, j, i);
            assert(cell_ok(c, a, b, j, i));
        }
    }
    if all_ok(c, b, a) {
        assert forall|i: int, j: int|
            0 <= i <= a.len() && 0 <= j <= b.len() implies #[trigger] cell_ok(c, a, b, i, j) by {
            lemma_symmetric_cell(c, a, b, i, j);
            assert(cell_ok(c, b, a, j, i));
        }
    }
}

/// A finite sum has finite summands.
pub proof fn lemma_cost_add_finite(a: Cost, b: Cost)
    requires
        cost_add(a, b) is Value,
    ensures
        a is Value,
        b is Value,
{
}

/// When deleting and inserting any symbol of the inputs is charged a finite
/// cost, every cell of the table is finite, and every move of the
/// backtraced path is charged a finite cost: the path runs through
/// finite-cost edges only.
pub proof fn lemma_trace_finite<C: ComputeCost>(
    c: &C,
    a: Seq<Seq<char>>,
    b: Seq<Seq<char>>,
    i: int,
    j: int,
)
    requires
        0 <= i <= a.len(),
        0 <= j <= b.len(),
        forall|k: int| 0 <= k < a.len() ==> (#[trigger] c.del_cost(Some(a[k]))) is Value,
        forall|k: int| 0 <= k < b.len() ==> (#[trigger] c.ins_cost(Some(b[k]))) is Value,
    ensures
        cell_cost(c, a, b, i, j) is Value,
        forall|k: int|
            0 <= k < trace(c, a, b, i, j).len() ==> (#[trigger] trace(c, a, b, i, j)[k]).cost
                is Value,
    decreases nonneg(i) + nonneg(j),
{
    if i == 0 && j == 0 {
    } else {
        let act = cell_action(c, a, b, i, j);
        let pi = prev_of(act, i, j).0;
        let pj = prev_of(act, i, j).1;
        let tr = trace(c, a, b, i, j);
        lemma_trace_finite(c, a, b, pi, pj);
        if i >= 1 && j >= 1 {
            // The cheapest candidate is at most the finite deletion
            // candidate, and a cost below a finite one is finite.
            lemma_cell_le_candidates(c, a, b, i, j);
            let kd = cost_add(cell_cost(c, a, b, i - 1, j), c.del_cost(Some(a[i - 1])));
            lemma_trace_finite(c, a, b, i - 1, j);
            assert(kd is Value);
            assert(cost_le(cell_cost(c, a, b, i, j), kd));
        }
        lemma_cell_step(c, a, b, i, j);
        lemma_cost_add_finite(cell_cost(c, a, b, pi, pj), step_cost(c, a, b, i, j));
        assert(tr.drop_last() =~= trace(c, a, b, pi, pj));
        assert forall|k: int| 0 <= k < tr.len() implies (#[trigger] tr[k]).cost is Value by {
            if k < tr.len() - 1 {
                assert(tr[k] == trace(c, a, b, pi, pj)[k]);
            } else {
                assert(tr[k].cost == step_cost(c, a, b, i, j));
            }
        }
    }
}

// ---------------------------------------------------------------------------
// The engine
// ---------------------------------------------------------------------------
/// One filled table cell: the cumulative cost, the winning move's own cost,
/// and the winning move.
#[derive(Clone, Copy)]
struct Cell {
    cum: Cost,
    step: Cost,
    act: Action,
}

/// The filled rows of the table agree with the mathematical table.
spec fn table_ok<C: ComputeCost>(
    c: &C,
    a: Seq<Seq<char>>,
    b: Seq<Seq<char>>,
    table: Seq<Vec<Cell>>,
    rows: int,
) -> bool {
    &&& table.len() == rows
    &&& forall|p: int| 0 <= p < rows ==> (#[trigger] table[p])@.len() == b.len() + 1
    &&& forall|p: int, q: int|
        0 <= p < rows && 0 <= q <= b.len() ==> #[trigger] cell_ok(c, a, b, p, q)
    &&& forall|p: int, q: int|
        0 <= p < rows && 0 <= q <= b.len() ==> (#[trigger] table[p]@[q]).cum == cell_cost(
            c,
            a,
            b,
            p,
            q,
        )
    &&& forall|p: int, q: int|
        0 <= p < rows && 0 <= q <= b.len() && !(p == 0 && q == 0) ==> (
        #[trigger] table[p]@[q]).act == cell_action(c, a, b, p, q) && table[p]@[q].step
            == step_cost(c, a, b, p, q)
}

/// Computes an optimal-cost alignment of `a` against `b` under the policy
/// `c`: classic edit-distance dynamic programming over a table of
/// `(|a|+1) x (|b|+1)` cells, followed by a backtrace from the bottom-right
/// cell. The result is exactly the mathematical [`trace`]; its expected-side
/// symbols are exactly `a`, its actual-side symbols exactly `b`, and its
/// summed step costs are the bottom-right cell's cumulative cost. The call
/// succeeds if and only if every policy call over the table succeeds, and
/// otherwise reports the error of the first failing call in table order.
pub fn diff_steps<C: ComputeCost>(c: &C, a: &Vec<Symbol>, b: &Vec<Symbol>) -> (r: Result<
    Vec<LevenshteinStep>,
    PhlDistanceError,
>)
    requires
        c.wf(),
    ensures
        (r is Ok) == all_ok(c, a.deep_view(), b.deep_view()),
        r matches Ok(steps) ==> steps.deep_view() == trace(
            c,
            a.deep_view(),
            b.deep_view(),
            a.len() as int,
            b.len() as int,
        ),
        r matches Ok(steps) ==> expected_of(steps.deep_view()) == a.deep_view() && actual_of(
            steps.deep_view(),
        ) == b.deep_view(),
        r matches Ok(steps) ==> total_of(steps.deep_view()) == cell_cost(
            c,
            a.deep_view(),
            b.deep_view(),
            a.len() as int,
            b.len() as int,
        ),
        r matches Err(e) ==> first_err(c, a.deep_view(), b.deep_view()) == Some(e@),
{
    let ghost av = a.deep_view();
    let ghost bv = b.deep_view();
    let la = a.len();
    let lb = b.len();
    let mut table: Vec<Vec<Cell>> = Vec::new();
    let mut i: usize = 0;
    loop
        invariant_except_break
            table_ok(c, av, bv, table@, i as int),
        invariant
            i <= la,
            c.wf(),
            av == a.deep_view(),
            bv == b.deep_view(),
            la == a.len(),
            lb == b.len(),
            av.len() == la,
            bv.len() == lb,
        ensures
            table_ok(c, av, bv, table@, la + 1),
        decreases la - i,
    {
        let mut row: Vec<Cell> = Vec::new();
        let mut j: usize = 0;
        loop
            invariant_except_break
                row@.len() == j,
            invariant
                i <= la,
                j <= lb,
                c.wf(),
                av == a.deep_view(),
                bv == b.deep_view(),
                la == a.len(),
                lb == b.len(),
                av.len() == la,
                bv.len() == lb,
                table_ok(c, av, bv, table@, i as int),
                forall|q: int| 0 <= q < j ==> #[trigger] cell_ok(c, av, bv, i as int, q),
                forall|q: int|
                    0 <= q < j ==> (#[trigger] row@[q]).cum == cell_cost(c, av, bv, i as int, q),
                forall|q: int|
                    0 <= q < j && !(i == 0 && q == 0) ==> (#[trigger] row@[q]).act == cell_action(
                        c,
                        av,
                        bv,
                        i as int,
                        q,
                    ) && row@[q].step == step_cost(c, av, bv, i as int, q),
            ensures
                row@.len() == lb + 1,
                forall|q: int| 0 <= q <= lb ==> #[trigger] cell_ok(c, av, bv, i as int, q),
                forall|q: int|
                    0 <= q <= lb ==> (#[trigger] row@[q]).cum == cell_cost(c, av, bv, i as int, q),
                forall|q: int|
                    0 <= q <= lb && !(i == 0 && q == 0) ==> (#[trigger] row@[q]).act
                        == cell_action(c, av, bv, i as int, q) && row@[q].step == step_cost(
                        c,
                        av,
                        bv,
                        i as int,
                        q,
                    ),
            decreases lb - j,
        {
            let cell: Cell = if i == 0 && j == 0 {
                Cell { cum: Cost::Value(0), step: Cost::Value(0), act: Action::DEL }
            } else if j == 0 {
                let dc = match c.cost_del(Some(&a[i - 1])) {
                    Ok(x) => x,
                    Err(e) => {
                        proof {
                            lemma_first_bad_here(c, av, bv, 0, 0, i as int, 0);
                            assert(!all_ok(c, av, bv));
                        }
                        return Err(e);
                    },
                };
                let prev = table[i - 1][0].cum;
                Cell { cum: prev.plus(dc), step: dc, act: Action::DEL }
            } else if i == 0 {
                let nc = match c.cost_ins(Some(&b[j - 1])) {
                    Ok(x) => x,
                    Err(e) => {
                        proof {
                            lemma_first_bad_here(c, av, bv, 0, 0, 0, j as int);
                            assert(!all_ok(c, av, bv));
                        }
                        return Err(e);
                    },
                };
                let prev = row[j - 1].cum;
                Cell { cum: prev.plus(nc), step: nc, act: Action::INS }
            } else {
                let dc = match c.cost_del(Some(&a[i - 1])) {
                    Ok(x) => x,
                    Err(e) => {
                        proof {
                            lemma_first_bad_here(c, av, bv, 0, 0, i as int, j as int);
                            assert(!all_ok(c, av, bv));
                        }
                        return Err(e);
                    },
                };
                let nc = match c.cost_ins(Some(&b[j - 1])) {
                    Ok(x) => x,
                    Err(e) => {
                        proof {
                            lemma_first_bad_here(c, av, bv, 0, 0, i as int, j as int);
                            assert(!all_ok(c, av, bv));
                        }
                        return Err(e);
                    },
                };
                let ec = match c.cost_eq(Some(&a[i - 1]), Some(&b[j - 1])) {
                    Ok(x) => x,
                    Err(e) => {
                        proof {
                            lemma_first_bad_here(c, av, bv, 0, 0, i as int, j as int);
                            assert(!all_ok(c, av, bv));
                        }
                        return Err(e);
                    },
                };
                let sc = match c.cost_sub(Some(&a[i - 1]), Some(&b[j - 1])) {
                    Ok(x) => x,
                    Err(e) => {
                        proof {
                            lemma_first_bad_here(c, av, bv, 0, 0, i as int, j as int);
                            assert(!all_ok(c, av, bv));
                        }
                        return Err(e);
                    },
                };
                let kd = table[i - 1][j].cum.plus(dc);
                let ki = row[j - 1].cum.plus(nc);
                let ke = table[i - 1][j - 1].cum.plus(ec);
                let ks = table[i - 1][j - 1].cum.plus(sc);
                if kd.le(ki) && kd.le(ke) && kd.le(ks) {
                    Cell { cum: kd, step: dc, act: Action::DEL }
                } else if ki.le(ke) && ki.le(ks) {
                    Cell { cum: ki, step: nc, act: Action::INS }
                } else if ke.le(ks) {
                    Cell { cum: ke, step: ec, act: Action::EQ }
                } else {
                    Cell { cum: ks, step: sc, act: Action::SUB }
                }
            };
            proof {
                assert(cell_ok(c, av, bv, i as int, j as int));
                assert(cell.cum == cell_cost(c, av, bv, i as int, j as int));
                if !(i == 0 && j == 0) {
                    assert(cell.act == cell_action(c, av, bv, i as int, j as int));
                    assert(cell.step == step_cost(c, av, bv, i as int, j as int));
                }
            }
            row.push(cell);
            if j == lb {
                break ;
            }
            j = j + 1;
        }
        table.push(row);
        proof {
            assert(table_ok(c, av, bv, table@, i + 1)) by {
                assert(forall|p: int| 0 <= p < i + 1 ==> (#[trigger] table@[p])@.len() == bv.len()
                    + 1);
                assert(forall|p: int, q: int|
                    0 <= p < i + 1 && 0 <= q <= bv.len() ==> #[trigger] cell_ok(c, av, bv, p, q));
                assert(forall|p: int, q: int|
                    0 <= p < i + 1 && 0 <= q <= bv.len() ==> (#[trigger] table@[p]@[q]).cum
                        == cell_cost(c, av, bv, p, q));
                assert(forall|p: int, q: int|
                    0 <= p < i + 1 && 0 <= q <= bv.len() && !(p == 0 && q == 0) ==> (
                    #[trigger] table@[p]@[q]).act == cell_action(c, av, bv, p, q)
                        && table@[p]@[q].step == step_cost(c, av, bv, p, q));
            }
        }
        if i == la {
            break ;
        }
        i = i + 1;
    }
    proof {
        lemma_first_bad_none(c, av, bv, 0, 0);
        assert(all_ok(c, av, bv));
    }
    // Backtrace from the bottom-right cell to the origin.
    let mut bi = la;
    let mut bj = lb;
    let mut steps: Vec<LevenshteinStep> = Vec::new();
    while bi > 0 || bj > 0
        invariant
            bi <= la,
            bj <= lb,
            av == a.deep_view(),
            bv == b.deep_view(),
            la == a.len(),
            lb == b.len(),
            av.len() == la,
            bv.len() == lb,
            table_ok(c, av, bv, table@, la + 1),
            trace(c, av, bv, la as int, lb as int) == trace(c, av, bv, bi as int, bj as int)
                + steps.deep_view(),
        decreases bi + bj,
    {
        let cell = table[bi][bj];
        let ghost act_g = cell_action(c, av, bv, bi as int, bj as int);
        let expected: Option<Symbol> = match cell.act {
            Action::INS => None,
            _ => Some(Symbol(a[bi - 1].0.clone())),
        };
        let actual: Option<Symbol> = match cell.act {
            Action::DEL => None,
            _ => Some(Symbol(b[bj - 1].0.clone())),
        };
        let step = LevenshteinStep { action: cell.act, expected, actual, cost: cell.step };
        let ghost sv = step@;
        let ghost prev_steps = steps.deep_view();
        steps.insert(0, step);
        proof {
            assert(steps.deep_view() =~= seq![sv] + prev_steps);
            assert(trace(c, av, bv, bi as int, bj as int) == trace(
                c,
                av,
                bv,
                prev_of(act_g, bi as int, bj as int).0,
                prev_of(act_g, bi as int, bj as int).1,
            ) + seq![sv]);
            assert(trace(
                c,
                av,
                bv,
                prev_of(act_g, bi as int, bj as int).0,
                prev_of(act_g, bi as int, bj as int).1,
            ) + seq![sv] + prev_steps =~= trace(
                c,
                av,
                bv,
                prev_of(act_g, bi as int, bj as int).0,
                prev_of(act_g, bi as int, bj as int).1,
            ) + (seq![sv] + prev_steps));
        }
        match cell.act {
            Action::DEL => {
                bi = bi - 1;
            },
            Action::INS => {
                bj = bj - 1;
            },
            _ => {
                bi = bi - 1;
                bj = bj - 1;
            },
        }
    }
    proof {
        assert(trace(c, av, bv, 0, 0) + steps.deep_view() =~= steps.deep_view());
        lemma_trace_shape(c, av, bv, la as int, lb as int);
        assert(av.take(la as int) =~= av);
        assert(bv.take(lb as int) =~= bv);
    }
    Ok(steps)
}

// ---------------------------------------------------------------------------
// The plain identity policy
// ---------------------------------------------------------------------------
/// The fallback cost policy: every substitution of unequal symbols costs one
/// unit, every deletion or insertion one unit, and a missing side forbids
/// the move. It never fails.
pub struct DefaultCalculator;

/// The error view of a policy that never fails; no call ever returns it.
pub open spec fn no_error() -> PhlDistanceErrorView {
    PhlDistanceErrorView::PhonemeNotFound(Seq::empty())
}

/// One whole cost unit, in quarters.
pub open spec fn unit_cost() -> Cost {
    Cost::Value(4)
}

impl ComputeCost for DefaultCalculator {
    open spec fn wf(&self) -> bool {
        true
    }

    open spec fn sub_ok(&self, a: Option<Seq<char>>, b: Option<Seq<char>>) -> bool {
        true
    }

    open spec fn sub_cost(&self, a: Option<Seq<char>>, b: Option<Seq<char>>) -> Cost {
        match (a, b) {
            (Some(x), Some(y)) => if x == y {
                Cost::Value(0)
            } else {
                unit_cost()
            },
            _ => Cost::Infinite,
        }
    }

    open spec fn sub_err(&self, a: Option<Seq<char>>, b: Option<Seq<char>>) -> PhlDistanceErrorView {
        no_error()
    }

    open spec fn del_ok(&self, a: Option<Seq<char>>) -> bool {
        true
    }

    open spec fn del_cost(&self, a: Option<Seq<char>>) -> Cost {
        match a {
            Some(_) => unit_cost(),
            None => Cost::Infinite,
        }
    }

    open spec fn del_err(&self, a: Option<Seq<char>>) -> PhlDistanceErrorView {
        no_error()
    }

    open spec fn ins_ok(&self, b: Option<Seq<char>>) -> bool {
        true
    }

    open spec fn ins_cost(&self, b: Option<Seq<char>>) -> Cost {
        match b {
            Some(_) => unit_cost(),
            None => Cost::Infinite,
        }
    }

    open spec fn ins_err(&self, b: Option<Seq<char>>) -> PhlDistanceErrorView {
        no_error()
    }

    open spec fn eq_ok(&self, a: Option<Seq<char>>, b: Option<Seq<char>>) -> bool {
        true
    }

    open spec fn eq_cost(&self, a: Option<Seq<char>>, b: Option<Seq<char>>) -> Cost {
        spec_default_eq_cost(a, b)
    }

    open spec fn eq_err(&self, a: Option<Seq<char>>, b: Option<Seq<char>>) -> PhlDistanceErrorView {
        no_error()
    }

    fn cost_sub(&self, a: Option<&Symbol>, b: Option<&Symbol>) -> (r: Result<
        Cost,
        PhlDistanceError,
    >) {
        match (a, b) {
            (Some(x), Some(y)) => {
                if crate::features::str_eq(x.0.as_str(), y.0.as_str()) {
                    Ok(Cost::Value(0))
                } else {
                    Ok(Cost::Value(4))
                }
            },
            _ => Ok(Cost::Infinite),
        }
    }

    fn cost_del(&self, a: Option<&Symbol>) -> (r: Result<Cost, PhlDistanceError>) {
        match a {
            Some(_) => Ok(Cost::Value(4)),
            None => Ok(Cost::Infinite),
        }
    }

    fn cost_ins(&self, b: Option<&Symbol>) -> (r: Result<Cost, PhlDistanceError>) {
        match b {
            Some(_) => Ok(Cost::Value(4)),
            None => Ok(Cost::Infinite),
        }
    }

    fn cost_eq(&self, a: Option<&Symbol>, b: Option<&Symbol>) -> (r: Result<
        Cost,
        PhlDistanceError,
    >) {
        Ok(default_cost_eq(a, b))
    }
}

/// A policy whose calls all succeed makes every cell fine.
pub proof fn lemma_always_ok<C: ComputeCost>(c: &C, a: Seq<Seq<char>>, b: Seq<Seq<char>>)
    requires
        forall|x: Option<Seq<char>>| #[trigger] c.del_ok(x),
        forall|x: Option<Seq<char>>| #[trigger] c.ins_ok(x),
        forall|x: Option<Seq<char>>, y: Option<Seq<char>>| #[trigger] c.eq_ok(x, y),
        forall|x: Option<Seq<char>>, y: Option<Seq<char>>| #[trigger] c.sub_ok(x, y),
    ensures
        all_ok(c, a, b),
{
    assert forall|i: int, j: int|
        0 <= i <= a.len() && 0 <= j <= b.len() implies #[trigger] cell_ok(c, a, b, i, j) by {
        assert(c.del_ok(Some(a[i - 1])));
        assert(c.ins_ok(Some(b[j - 1])));
        assert(c.eq_ok(Some(a[i - 1]), Some(b[j - 1])));
        assert(c.sub_ok(Some(a[i - 1]), Some(b[j - 1])));
    }
}

/// The edit distance of two symbol sequences under the plain identity
/// policy; it always succeeds.
pub fn edit_distance(a: Vec<Symbol>, b: Vec<Symbol>) -> (r: Result<
    Vec<LevenshteinStep>,
    PhlDistanceError,
>)
    ensures
        r matches Ok(steps) && steps.deep_view() == trace(
            &(DefaultCalculator {  }),
            a.deep_view(),
            b.deep_view(),
            a.len() as int,
            b.len() as int,
        ),
{
    let c = DefaultCalculator {  };
    proof {
        lemma_always_ok(&c, a.deep_view(), b.deep_view());
    }
    diff_steps(&c, &a, &b)
}

} // verus!
