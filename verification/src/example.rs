use vstd::prelude::*;

use crate::features::str_eq;

verus! {

/// A minimal distinctive-feature bundle for the demonstration system.
#[derive(Debug, Clone, Copy, PartialEq, Eq, Structural, Hash)]
pub struct Features {
    pub voiced: bool,
    pub labial: bool,
    pub coronal: bool,
}

/// One phoneme of the demonstration system: a symbol and its features.
#[derive(Debug, Clone)]
pub struct Phoneme {
    pub symbol: String,
    pub features: Features,
}

/// The mathematical shape of a [`Phoneme`].
pub struct PhonemeView {
    pub symbol: Seq<char>,
    pub features: Features,
}

impl View for Phoneme {
    type V = PhonemeView;

    open spec fn view(&self) -> PhonemeView {
        PhonemeView { symbol: self.symbol@, features: self.features }
    }
}

impl DeepView for Phoneme {
    type V = PhonemeView;

    open spec fn deep_view(&self) -> PhonemeView {
        self@
    }
}

impl PartialEq for Phoneme {
    fn eq(&self, other: &Phoneme) -> bool {
        self.symbol == other.symbol && self.features == other.features
    }
}

impl vstd::std_specs::cmp::PartialEqSpecImpl for Phoneme {
    open spec fn obeys_eq_spec() -> bool {
        true
    }

    open spec fn eq_spec(&self, other: &Phoneme) -> bool {
        self.symbol@ == other.symbol@ && self.features == other.features
    }
}

impl Phoneme {
    /// An owned copy of the phoneme, equal in content.
    pub fn duplicate(&self) -> (r: Phoneme)
        ensures
            r@ == self@,
    {
        Phoneme { symbol: self.symbol.clone(), features: self.features }
    }
}

/// The index of the last entry bearing `symbol`, if any: entries declared
/// later shadow earlier ones, as in a map filled in order.
pub open spec fn spec_rfind_by_symbol(es: Seq<PhonemeView>, symbol: Seq<char>) -> Option<int>
    decreases es.len(),
{
    if es.len() == 0 {
        None
    } else if es[es.len() - 1].symbol == symbol {
        Some(es.len() - 1)
    } else {
        spec_rfind_by_symbol(es.drop_last(), symbol)
    }
}

/// The index of the last entry bearing `features`, if any.
pub open spec fn spec_rfind_by_features(es: Seq<PhonemeView>, features: Features) -> Option<int>
    decreases es.len(),
{
    if es.len() == 0 {
        None
    } else if es[es.len() - 1].features == features {
        Some(es.len() - 1)
    } else {
        spec_rfind_by_features(es.drop_last(), features)
    }
}

/// A phoneme table indexed both by symbol and by feature bundle.
pub struct DistinctiveFeatureSystem {
    pub entries: Vec<Phoneme>,
}

impl DistinctiveFeatureSystem {
    /// The entries, in declaration order.
    pub fn iter(&self) -> (r: &Vec<Phoneme>)
        ensures
            r == &self.entries,
    {
        &self.entries
    }

    /// The last entry declared under `s`, if any.
    pub fn get_by_symbol(&self, s: &str) -> (r: Option<Phoneme>)
        ensures
            match spec_rfind_by_symbol(self.entries.deep_view(), s@) {
                Some(i) => r matches Some(p) && p@ == self.entries.deep_view()[i],
                None => r is None,
            },
    {
        let ghost ev = self.entries.deep_view();
        let mut k = self.entries.len();
        proof {
            assert(ev.take(k as int) =~= ev);
        }
        while k > 0
            invariant
                k <= self.entries.len(),
                ev == self.entries.deep_view(),
                ev.len() == self.entries.len(),
                spec_rfind_by_symbol(ev, s@) == spec_rfind_by_symbol(ev.take(k as int), s@),
            decreases k,
        {
            k = k - 1;
            proof {
                assert(ev.take(k + 1).drop_last() =~= ev.take(k as int));
                assert(ev.take(k + 1).last() == ev[k as int]);
            }
            if str_eq(self.entries[k].symbol.as_str(), s) {
                return Some(self.entries[k].duplicate());
            }
        }
        proof {
            assert(ev.take(0) =~= Seq::<PhonemeView>::empty());
        }
        None
    }

    /// The last entry declared under `f`, if any.
    pub fn get_by_features(&self, f: &Features) -> (r: Option<Phoneme>)
        ensures
            match spec_rfind_by_features(self.entries.deep_view(), *f) {
                Some(i) => r matches Some(p) && p@ == self.entries.deep_view()[i],
                None => r is None,
            },
    {
        let ghost ev = self.entries.deep_view();
        let mut k = self.entries.len();
        proof {
            assert(ev.take(k as int) =~= ev);
        }
        while k > 0
            invariant
                k <= self.entries.len(),
                ev == self.entries.deep_view(),
                ev.len() == self.entries.len(),
                spec_rfind_by_features(ev, *f) == spec_rfind_by_features(ev.take(k as int), *f),
            decreases k,
        {
            k = k - 1;
            proof {
                assert(ev.take(k + 1).drop_last() =~= ev.take(k as int));
                assert(ev.take(k + 1).last() == ev[k as int]);
            }
            if self.entries[k].features == *f {
                return Self::as_clone(Some(&self.entries[k]));
            }
        }
        proof {
            assert(ev.take(0) =~= Seq::<PhonemeView>::empty());
        }
        None
    }

    /// An owned copy of an optionally borrowed phoneme.
    pub fn as_clone(p: Option<&Phoneme>) -> (r: Option<Phoneme>)
        ensures
            match p {
                Some(x) => r matches Some(y) && y@ == x@,
                None => r is None,
            },
    {
        match p {
            None => None,
            Some(x) => Some(x.duplicate()),
        }
    }
}

/// Builds the demonstration system from raw `(symbol, features)` pairs,
/// kept in order.
pub fn build_system(raw_data: Vec<(String, Features)>) -> (r: DistinctiveFeatureSystem)
    ensures
        r.entries.deep_view().len() == raw_data@.len(),
        forall|i: int|
            0 <= i < raw_data@.len() ==> (#[trigger] r.entries.deep_view()[i]).symbol
                == raw_data@[i].0@ && r.entries.deep_view()[i].features == raw_data@[i].1,
{
    let ghost rv = raw_data@;
    let mut entries: Vec<Phoneme> = Vec::new();
    let mut k: usize = 0;
    while k < raw_data.len()
        invariant
            k <= raw_data.len(),
            rv == raw_data@,
            rv.len() == raw_data.len(),
            entries.deep_view().len() == k,
            forall|i: int|
                0 <= i < k ==> (#[trigger] entries.deep_view()[i]).symbol == rv[i].0@
                    && entries.deep_view()[i].features == rv[i].1,
        decreases raw_data.len() - k,
    {
        let symbol = raw_data[k].0.clone();
        let features = raw_data[k].1;
        let ghost prev = entries.deep_view();
        let p = Phoneme { symbol, features };
        let ghost pv = p@;
        entries.push(p);
        proof {
            assert(entries.deep_view() =~= prev.push(pv));
        }
        k = k + 1;
    }
    DistinctiveFeatureSystem { entries }
}

} // verus!
