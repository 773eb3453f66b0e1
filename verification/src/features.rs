use vstd::prelude::*;

verus! {

/// Compares two string slices character by character.
pub fn str_eq(a: &str, b: &str) -> (r: bool)
    ensures
        r == (a@ == b@),
{
    let n = a.unicode_len();
    if n != b.unicode_len() {
        proof {
            assert(a@.len() != b@.len());
        }
        return false;
    }
    for i in 0..n
        invariant
            n == a@.len(),
            n == b@.len(),
            forall|k: int| 0 <= k < i ==> a@[k] == b@[k],
    {
        if a.get_char(i) != b.get_char(i) {
            return false;
        }
    }
    proof {
        assert(a@ =~= b@);
    }
    true
}

/// An atomic unit of the declared sound inventory: an immutable string,
/// compared by its character content.
#[derive(Debug, Clone)]
pub struct Symbol(pub String);

impl View for Symbol {
    type V = Seq<char>;

    open spec fn view(&self) -> Seq<char> {
        self.0@
    }
}

impl DeepView for Symbol {
    type V = Seq<char>;

    open spec fn deep_view(&self) -> Seq<char> {
        self.0@
    }
}

impl PartialEq for Symbol {
    fn eq(&self, other: &Symbol) -> bool {
        self.0 == other.0
    }
}

impl vstd::std_specs::cmp::PartialEqSpecImpl for Symbol {
    open spec fn obeys_eq_spec() -> bool {
        true
    }

    open spec fn eq_spec(&self, other: &Symbol) -> bool {
        self.0@ == other.0@
    }
}

/// True of the texts that mark abstract feature classes: wrapped in angle
/// brackets, usable only on the right-hand side of other definitions.
pub open spec fn spec_is_class(s: Seq<char>) -> bool {
    s.len() > 0 && s[0] == '<' && s[s.len() - 1] == '>'
}

impl Symbol {
    pub fn new(s: &str) -> (r: Symbol)
        ensures
            r@ == s@,
    {
        Symbol(s.to_owned())
    }

    /// The number of characters in the symbol's text.
    pub fn len(&self) -> (r: usize)
        ensures
            r == self@.len(),
    {
        self.0.as_str().unicode_len()
    }

    pub fn is_class(&self) -> (r: bool)
        ensures
            r == spec_is_class(self@),
    {
        let n = self.0.as_str().unicode_len();
        if n == 0 {
            false
        } else {
            self.0.as_str().get_char(0) == '<' && self.0.as_str().get_char(n - 1) == '>'
        }
    }

    /// An owned copy of the symbol, equal in content.
    pub fn duplicate(&self) -> (r: Symbol)
        ensures
            r@ == self@,
    {
        Symbol(self.0.clone())
    }
}

/// One of five canonical feature states, plus the underspecified sentinel
/// `?`, which means "inherit, do not override" while vectors are merged.
#[derive(Debug, Clone, Copy, PartialEq, Eq, Structural)]
pub enum FeatureValue {
    Plus,
    Minus,
    Zero,
    PlusMinus,
    MinusPlus,
    Unspecified,
}

impl FeatureValue {
    /// The numeric magnitude of the value, doubled so that it is an integer:
    /// `+` is 1.0, `+-` is 0.5, `0` is 0.0, `-+` is -0.5, `-` is -1.0.
    /// The underspecified sentinel has no magnitude.
    pub open spec fn spec_halves(self) -> Option<int> {
        match self {
            FeatureValue::Plus => Some(2int),
            FeatureValue::Minus => Some(-2int),
            FeatureValue::Zero => Some(0int),
            FeatureValue::PlusMinus => Some(1int),
            FeatureValue::MinusPlus => Some(-1int),
            FeatureValue::Unspecified => None,
        }
    }

    pub open spec fn is_specified(self) -> bool {
        self != FeatureValue::Unspecified
    }

    /// The canonical textual form of the value.
    pub open spec fn spec_text(self) -> Seq<char> {
        match self {
            FeatureValue::Plus => "+"@,
            FeatureValue::Minus => "-"@,
            FeatureValue::Zero => "0"@,
            FeatureValue::PlusMinus => "+-"@,
            FeatureValue::MinusPlus => "-+"@,
            FeatureValue::Unspecified => "?"@,
        }
    }

    pub fn canonical_text(&self) -> (r: &'static str)
        ensures
            r@ == self.spec_text(),
    {
        match self {
            FeatureValue::Plus => "+",
            FeatureValue::Minus => "-",
            FeatureValue::Zero => "0",
            FeatureValue::PlusMinus => "+-",
            FeatureValue::MinusPlus => "-+",
            FeatureValue::Unspecified => "?",
        }
    }

    /// The doubled magnitude as an executable value, in the range -2 ..= 2.
    pub fn halves(&self) -> (r: Option<i8>)
        ensures
            match r {
                Some(h) => self.spec_halves() == Some(h as int),
                None => self.spec_halves() is None,
            },
    {
        match self {
            FeatureValue::Plus => Some(2),
            FeatureValue::Minus => Some(-2),
            FeatureValue::Zero => Some(0),
            FeatureValue::PlusMinus => Some(1),
            FeatureValue::MinusPlus => Some(-1),
            FeatureValue::Unspecified => None,
        }
    }
}

/// A named feature: a case-sensitive name paired with a value.
#[derive(Debug, Clone, PartialEq)]
pub struct Feature {
    pub value: FeatureValue,
    pub name: String,
}

/// The mathematical shape of a [`Feature`].
pub struct FeatureView {
    pub value: FeatureValue,
    pub name: Seq<char>,
}

impl View for Feature {
    type V = FeatureView;

    open spec fn view(&self) -> FeatureView {
        FeatureView { value: self.value, name: self.name@ }
    }
}

impl DeepView for Feature {
    type V = FeatureView;

    open spec fn deep_view(&self) -> FeatureView {
        self@
    }
}

impl Feature {
    /// An owned copy of the feature, equal in content.
    pub fn duplicate(&self) -> (r: Feature)
        ensures
            r@ == self@,
    {
        Feature { value: self.value, name: self.name.clone() }
    }
}

/// An owned copy of a feature vector, equal in content.
pub fn duplicate_features(v: &Vec<Feature>) -> (r: Vec<Feature>)
    ensures
        r.deep_view() == v.deep_view(),
{
    let mut r: Vec<Feature> = Vec::new();
    for i in 0..v.len()
        invariant
            r.deep_view().len() == i,
            forall|k: int| 0 <= k < i ==> r.deep_view()[k] == v.deep_view()[k],
    {
        let ghost prev = r.deep_view();
        let f = v[i].duplicate();
        let ghost fv = f@;
        r.push(f);
        proof {
            assert(r.deep_view() =~= prev.push(fv));
        }
    }
    proof {
        assert(r.deep_view() =~= v.deep_view());
    }
    r
}

/// The last value in `other` that bears `name` and is not underspecified;
/// later list entries win over earlier ones.
pub open spec fn spec_last_override(other: Seq<FeatureView>, name: Seq<char>) -> Option<FeatureView>
    decreases other.len(),
{
    if other.len() == 0 {
        None
    } else {
        let last = other[other.len() - 1];
        if last.name == name && last.value.is_specified() {
            Some(last)
        } else {
            spec_last_override(other.drop_last(), name)
        }
    }
}

/// Overlays `other` onto `base`, dimension by dimension: a dimension of
/// `base` is replaced by the latest specified entry of `other` with the same
/// name, and kept unchanged otherwise. Entries of `other` whose names do not
/// occur in `base` contribute nothing; the result always has the shape of
/// `base`.
pub open spec fn spec_apply_features(base: Seq<FeatureView>, other: Seq<FeatureView>) -> Seq<
    FeatureView,
> {
    Seq::new(
        base.len(),
        |i: int|
            match spec_last_override(other, base[i].name) {
                Some(f) => f,
                None => base[i],
            },
    )
}

proof fn lemma_last_override_take(other: Seq<FeatureView>, name: Seq<char>, j: int)
    requires
        0 <= j <= other.len(),
        forall|k: int|
            j <= k < other.len() ==> !(#[trigger] other[k].name == name
                && other[k].value.is_specified()),
    ensures
        spec_last_override(other, name) == spec_last_override(other.take(j), name),
    decreases other.len() - j,
{
    if j < other.len() {
        lemma_last_override_take(other, name, j + 1);
        assert(other.take(j + 1).drop_last() =~= other.take(j));
        assert(other.take(j + 1).last() == other[j]);
        assert(other.take(other.len() as int) =~= other);
    } else {
        assert(other.take(j) =~= other);
    }
}

/// Merges one feature vector over another, per [`spec_apply_features`].
pub fn apply_features(base: &Vec<Feature>, other: &Vec<Feature>) -> (r: Vec<Feature>)
    ensures
        r.deep_view() == spec_apply_features(base.deep_view(), other.deep_view()),
{
    let ghost basev = base.deep_view();
    let ghost otherv = other.deep_view();
    let mut r: Vec<Feature> = Vec::new();
    for i in 0..base.len()
        invariant
            basev == base.deep_view(),
            otherv == other.deep_view(),
            basev.len() == base.len(),
            r.deep_view().len() == i,
            forall|k: int|
                0 <= k < i ==> r.deep_view()[k] == spec_apply_features(basev, otherv)[k],
    {
        let mut j = other.len();
        let mut chosen: Option<&Feature> = None;
        proof {
            assert(otherv.take(j as int) =~= otherv);
        }
        while j > 0 && chosen.is_none()
            invariant
                otherv == other.deep_view(),
                otherv.len() == other.len(),
                0 <= j <= other.len(),
                0 <= i < base.len(),
                basev == base.deep_view(),
                basev.len() == base.len(),
                match chosen {
                    Some(f) => spec_last_override(otherv, basev[i as int].name) == Some(f@),
                    None => spec_last_override(otherv, basev[i as int].name) == spec_last_override(
                        otherv.take(j as int),
                        basev[i as int].name,
                    ),
                },
            decreases j,
        {
            j = j - 1;
            let f = &other[j];
            if f.value.halves().is_some() && str_eq(f.name.as_str(), base[i].name.as_str()) {
                chosen = Some(f);
                proof {
                    assert(otherv.take(j + 1).last() == otherv[j as int]);
                    assert(f@ == otherv[j as int]);
                }
            } else {
                proof {
                    assert(otherv.take(j + 1).drop_last() =~= otherv.take(j as int));
                    assert(otherv.take(j + 1).last() == otherv[j as int]);
                }
            }
        }
        let pushed: Feature = match chosen {
            Some(f) => f.duplicate(),
            None => {
                proof {
                    assert(otherv.take(0) =~= Seq::<FeatureView>::empty());
                }
                base[i].duplicate()
            },
        };
        proof {
            assert(pushed.deep_view() == spec_apply_features(basev, otherv)[i as int]);
        }
        let ghost prev = r.deep_view();
        let ghost pv = pushed.deep_view();
        r.push(pushed);
        proof {
            assert(r.deep_view() =~= prev.push(pv));
        }
    }
    proof {
        assert(r.deep_view() =~= spec_apply_features(basev, otherv));
    }
    r
}

} // verus!
