use vstd::prelude::*;

use crate::errors::{PhlDistanceError, PhlDistanceErrorView, PhlParseError, PhlParseErrorView};
use crate::features::{
    apply_features, duplicate_features, spec_apply_features, spec_last_override, str_eq, Feature,
    FeatureValue, FeatureView, Symbol,
};
use crate::parser::{Definition, DefinitionItem, DefinitionItemView, DefinitionView};

verus! {

/// The resolved form of one declared symbol: the symbol and its final
/// feature vector.
#[derive(Debug, Clone, PartialEq)]
pub struct PhonologicalFeatureEntry {
    pub symbol: Symbol,
    pub features: Vec<Feature>,
}

/// The mathematical shape of a [`PhonologicalFeatureEntry`].
pub struct EntryView {
    pub symbol: Seq<char>,
    pub features: Seq<FeatureView>,
}

impl View for PhonologicalFeatureEntry {
    type V = EntryView;

    open spec fn view(&self) -> EntryView {
        EntryView { symbol: self.symbol@, features: self.features.deep_view() }
    }
}

impl DeepView for PhonologicalFeatureEntry {
    type V = EntryView;

    open spec fn deep_view(&self) -> EntryView {
        self@
    }
}

/// How one feature dimension differs between two symbols.
#[derive(Debug, Clone, PartialEq)]
pub struct FeatureDelta {
    pub name: String,
    pub left: FeatureValue,
    pub right: FeatureValue,
}

/// The mathematical shape of a [`FeatureDelta`].
pub struct FeatureDeltaView {
    pub name: Seq<char>,
    pub left: FeatureValue,
    pub right: FeatureValue,
}

impl View for FeatureDelta {
    type V = FeatureDeltaView;

    open spec fn view(&self) -> FeatureDeltaView {
        FeatureDeltaView { name: self.name@, left: self.left, right: self.right }
    }
}

impl DeepView for FeatureDelta {
    type V = FeatureDeltaView;

    open spec fn deep_view(&self) -> FeatureDeltaView {
        self@
    }
}

/// The symbol every system must define first, fixing the feature dimensions.
pub open spec fn spec_default_symbol() -> Seq<char> {
    "<default>"@
}

/// Membership of a text in a sequence of texts.
pub open spec fn seq_contains_text(ss: Seq<Seq<char>>, s: Seq<char>) -> bool {
    exists|i: int| 0 <= i < ss.len() && ss[i] == s
}

/// The first index at or after `k` whose entry declares `sym`.
pub open spec fn spec_find_symbol_from(entries: Seq<EntryView>, sym: Seq<char>, k: int) -> Option<
    int,
>
    decreases entries.len() - k,
{
    if k < 0 || k >= entries.len() {
        None
    } else if entries[k].symbol == sym {
        Some(k)
    } else {
        spec_find_symbol_from(entries, sym, k + 1)
    }
}

/// The first index whose entry declares `sym`.
pub open spec fn spec_find_symbol(entries: Seq<EntryView>, sym: Seq<char>) -> Option<int> {
    spec_find_symbol_from(entries, sym, 0)
}

pub proof fn lemma_find_symbol_bounds(entries: Seq<EntryView>, sym: Seq<char>, k: int)
    requires
        spec_find_symbol_from(entries, sym, k) is Some,
    ensures
        k <= spec_find_symbol_from(entries, sym, k)->0 < entries.len(),
        entries[spec_find_symbol_from(entries, sym, k)->0].symbol == sym,
    decreases entries.len() - k,
{
    if !(k < 0 || k >= entries.len()) && entries[k].symbol != sym {
        lemma_find_symbol_bounds(entries, sym, k + 1);
    }
}

/// `spec_find_symbol_from` finds something exactly when a matching entry
/// stands at or after `k`.
pub proof fn lemma_find_symbol_none(entries: Seq<EntryView>, sym: Seq<char>, k: int)
    requires
        0 <= k <= entries.len(),
    ensures
        spec_find_symbol_from(entries, sym, k) is None <==> forall|i: int|
            k <= i < entries.len() ==> (#[trigger] entries[i]).symbol != sym,
    decreases entries.len() - k,
{
    if k < entries.len() {
        lemma_find_symbol_none(entries, sym, k + 1);
    }
}

/// Resolves the instructions of one definition, left to right, starting from
/// `acc` (the default vector): a symbol reference overlays the accumulated
/// vector onto that symbol's resolved vector, an explicit list overlays the
/// list onto the accumulated vector. A reference to an undeclared symbol
/// fails.
pub open spec fn spec_resolve_items(
    entries: Seq<EntryView>,
    acc: Seq<FeatureView>,
    items: Seq<DefinitionItemView>,
    k: int,
) -> Result<Seq<FeatureView>, PhlParseErrorView>
    decreases items.len() - k,
{
    if k < 0 || k >= items.len() {
        Ok(acc)
    } else {
        match items[k] {
            DefinitionItemView::Sym(s) => match spec_find_symbol(entries, s) {
                None => Err(PhlParseErrorView::SymbolNotDefined(s)),
                Some(i) => spec_resolve_items(
                    entries,
                    spec_apply_features(entries[i].features, acc),
                    items,
                    k + 1,
                ),
            },
            DefinitionItemView::Feats(fs) => spec_resolve_items(
                entries,
                spec_apply_features(acc, fs),
                items,
                k + 1,
            ),
        }
    }
}

/// The resolved feature vector of one definition against the entries seen so
/// far. The `<default>` definition must consist of exactly one explicit
/// feature list, which is its vector; every other definition requires
/// `<default>` to be declared already and folds its instructions over the
/// default vector.
pub open spec fn spec_compute_features(
    entries: Seq<EntryView>,
    d: DefinitionView,
) -> Result<Seq<FeatureView>, PhlParseErrorView> {
    if d.symbol == spec_default_symbol() {
        if d.items.len() != 1 {
            Err(PhlParseErrorView::MustHaveDefault)
        } else {
            match d.items[0] {
                DefinitionItemView::Feats(fs) => Ok(fs),
                DefinitionItemView::Sym(_) => Err(PhlParseErrorView::MustHaveDefault),
            }
        }
    } else {
        match spec_find_symbol(entries, spec_default_symbol()) {
            None => Err(PhlParseErrorView::MustHaveDefault),
            Some(di) => spec_resolve_items(entries, entries[di].features, d.items, 0),
        }
    }
}

/// Folds definitions into resolved entries, in order. A symbol already seen
/// is a redefinition error; the first error anywhere is the whole result.
pub open spec fn spec_fold_entries(
    entries: Seq<EntryView>,
    defs: Seq<DefinitionView>,
    k: int,
) -> Result<Seq<EntryView>, PhlParseErrorView>
    decreases defs.len() - k,
{
    if k < 0 || k >= defs.len() {
        Ok(entries)
    } else {
        let d = defs[k];
        if spec_find_symbol(entries, d.symbol) is Some {
            Err(PhlParseErrorView::RedefinedSymbol(d.symbol))
        } else {
            match spec_compute_features(entries, d) {
                Err(e) => Err(e),
                Ok(fs) => spec_fold_entries(
                    entries.push(EntryView { symbol: d.symbol, features: fs }),
                    defs,
                    k + 1,
                ),
            }
        }
    }
}

/// The entries of a built system: the fold of all definitions, required to
/// start with `<default>`.
pub open spec fn spec_build(defs: Seq<DefinitionView>) -> Result<Seq<EntryView>, PhlParseErrorView> {
    match spec_fold_entries(Seq::empty(), defs, 0) {
        Err(e) => Err(e),
        Ok(es) => if es.len() == 0 || es[0].symbol != spec_default_symbol() {
            Err(PhlParseErrorView::MustHaveDefault)
        } else {
            Ok(es)
        },
    }
}

/// A feature vector has the shape of the default vector `def`: same length,
/// same names in the same order, and underspecified only where the default
/// itself is.
pub open spec fn aligned(def: Seq<FeatureView>, fs: Seq<FeatureView>) -> bool {
    &&& fs.len() == def.len()
    &&& forall|j: int|
        0 <= j < fs.len() ==> (#[trigger] fs[j]).name == def[j].name && (fs[j].value
            == FeatureValue::Unspecified ==> def[j].value == FeatureValue::Unspecified)
}

/// A fully resolved, immutable feature system: the declared entries in
/// order, the fixed feature-dimension count, and the derived symbol sets
/// that steer tokenization and cost evaluation.
pub struct PhonologicalFeatureSystem {
    pub entries: Vec<PhonologicalFeatureEntry>,
    pub ignore_symbols: Vec<String>,
    pub zero_cost_symbols: Vec<String>,
    pub separators: Vec<String>,
    pub num_features: usize,
}

impl PhonologicalFeatureSystem {
    /// Well-formedness: a `<default>` entry stands first; every entry's
    /// vector is aligned with the default vector; no two entries share a
    /// symbol; `num_features` is the default vector's length.
    pub open spec fn wf(&self) -> bool {
        let es = self.entries.deep_view();
        &&& es.len() > 0
        &&& es[0].symbol == spec_default_symbol()
        &&& self.num_features == es[0].features.len()
        &&& forall|i: int| 0 <= i < es.len() ==> aligned(es[0].features, (#[trigger] es[i]).features)
        &&& forall|i: int, j: int| 0 <= i < j < es.len() ==> es[i].symbol != es[j].symbol
    }

    /// Membership of a symbol in the zero-cost set.
    pub open spec fn spec_is_zero_cost(&self, s: Seq<char>) -> bool {
        seq_contains_text(self.zero_cost_symbols.deep_view(), s)
    }

    pub fn is_zero_cost(&self, s: &Symbol) -> (r: bool)
        ensures
            r == self.spec_is_zero_cost(s@),
    {
        contains_text(&self.zero_cost_symbols, s.0.as_str())
    }

    /// The resolved entry declaring `symbol`, if any.
    pub fn get_for_symbol(&self, symbol: &Symbol) -> (r: Option<&PhonologicalFeatureEntry>)
        ensures
            match spec_find_symbol(self.entries.deep_view(), symbol@) {
                Some(i) => r matches Some(e) && e@ == self.entries.deep_view()[i],
                None => r is None,
            },
    {
        match find_entry_index(&self.entries, symbol.0.as_str()) {
            Some(i) => {
                proof {
                    lemma_find_symbol_bounds(self.entries.deep_view(), symbol@, 0);
                }
                Some(&self.entries[i])
            },
            None => None,
        }
    }
}

/// Whatever `spec_last_override` returns bears the requested name and is
/// specified.
pub proof fn lemma_last_override_props(other: Seq<FeatureView>, name: Seq<char>)
    ensures
        match spec_last_override(other, name) {
            Some(f) => f.name == name && f.value.is_specified(),
            None => true,
        },
    decreases other.len(),
{
    if other.len() > 0 {
        let last = other[other.len() - 1];
        if !(last.name == name && last.value.is_specified()) {
            lemma_last_override_props(other.drop_last(), name);
        }
    }
}

/// Overlaying preserves alignment with the default vector.
pub proof fn lemma_apply_aligned(
    def: Seq<FeatureView>,
    base: Seq<FeatureView>,
    other: Seq<FeatureView>,
)
    requires
        aligned(def, base),
    ensures
        aligned(def, spec_apply_features(base, other)),
{
    let r = spec_apply_features(base, other);
    assert forall|j: int| 0 <= j < r.len() implies (#[trigger] r[j]).name == def[j].name && (
    r[j].value == FeatureValue::Unspecified ==> def[j].value == FeatureValue::Unspecified) by {
        lemma_last_override_props(other, base[j].name);
    }
}

/// Resolving instructions preserves alignment with the default vector.
pub proof fn lemma_resolve_aligned(
    entries: Seq<EntryView>,
    def: Seq<FeatureView>,
    acc: Seq<FeatureView>,
    items: Seq<DefinitionItemView>,
    k: int,
)
    requires
        aligned(def, acc),
        forall|i: int| 0 <= i < entries.len() ==> aligned(def, (#[trigger] entries[i]).features),
        spec_resolve_items(entries, acc, items, k) is Ok,
    ensures
        aligned(def, spec_resolve_items(entries, acc, items, k)->Ok_0),
    decreases items.len() - k,
{
    if 0 <= k < items.len() {
        match items[k] {
            DefinitionItemView::Sym(s) => {
                let i = spec_find_symbol(entries, s)->0;
                lemma_find_symbol_bounds(entries, s, 0);
                lemma_apply_aligned(def, entries[i].features, acc);
                lemma_resolve_aligned(
                    entries,
                    def,
                    spec_apply_features(entries[i].features, acc),
                    items,
                    k + 1,
                );
            },
            DefinitionItemView::Feats(fs) => {
                lemma_apply_aligned(def, acc, fs);
                lemma_resolve_aligned(entries, def, spec_apply_features(acc, fs), items, k + 1);
            },
        }
    }
}

/// The shape the fold maintains: `<default>` first, every entry aligned with
/// it, all symbols distinct.
pub open spec fn entries_wf(es: Seq<EntryView>) -> bool {
    &&& es.len() > 0 ==> es[0].symbol == spec_default_symbol()
    &&& forall|i: int| 0 <= i < es.len() ==> aligned(es[0].features, (#[trigger] es[i]).features)
    &&& forall|i: int, j: int| 0 <= i < j < es.len() ==> es[i].symbol != es[j].symbol
}

/// A successful fold yields well-shaped entries.
pub proof fn lemma_fold_wf(entries: Seq<EntryView>, defs: Seq<DefinitionView>, k: int)
    requires
        spec_fold_entries(entries, defs, k) is Ok,
        entries_wf(entries),
    ensures
        entries_wf(spec_fold_entries(entries, defs, k)->Ok_0),
    decreases defs.len() - k,
{
    if 0 <= k < defs.len() {
        let d = defs[k];
        let fs = spec_compute_features(entries, d)->Ok_0;
        let pushed = entries.push(EntryView { symbol: d.symbol, features: fs });
        lemma_find_symbol_none(entries, d.symbol, 0);
        if d.symbol == spec_default_symbol() {
            assert(entries.len() == 0) by {
                if entries.len() > 0 {
                    assert(entries[0].symbol == spec_default_symbol());
                }
            }
            assert(entries_wf(pushed));
        } else {
            let di = spec_find_symbol(entries, spec_default_symbol())->0;
            lemma_find_symbol_bounds(entries, spec_default_symbol(), 0);
            assert(entries.len() > 0);
            assert(di == 0) by {
                if di != 0 {
                    assert(entries[0].symbol != spec_default_symbol());
                }
            }
            lemma_resolve_aligned(entries, entries[0].features, entries[0].features, d.items, 0);
            assert(entries_wf(pushed));
        }
        lemma_fold_wf(pushed, defs, k + 1);
    }
}

pub(crate) fn contains_text(v: &Vec<String>, s: &str) -> (r: bool)
    ensures
        r == seq_contains_text(v.deep_view(), s@),
{
    for i in 0..v.len()
        invariant
            forall|k: int| 0 <= k < i ==> v.deep_view()[k] != s@,
    {
        if str_eq(v[i].as_str(), s) {
            proof {
                assert(v.deep_view()[i as int] == s@);
            }
            return true;
        }
    }
    false
}

fn find_entry_index(entries: &Vec<PhonologicalFeatureEntry>, sym: &str) -> (r: Option<usize>)
    ensures
        match spec_find_symbol(entries.deep_view(), sym@) {
            Some(i) => r matches Some(q) && q as int == i,
            None => r is None,
        },
{
    let ghost ev = entries.deep_view();
    let mut k: usize = 0;
    while k < entries.len()
        invariant
            k <= entries.len(),
            ev == entries.deep_view(),
            ev.len() == entries.len(),
            spec_find_symbol(ev, sym@) == spec_find_symbol_from(ev, sym@, k as int),
        decreases entries.len() - k,
    {
        if str_eq(entries[k].symbol.0.as_str(), sym) {
            return Some(k);
        }
        k = k + 1;
    }
    None
}

/// The resolved feature vector of one definition against the entries
/// declared so far, per [`spec_compute_features`].
fn compute_features(
    entries: &Vec<PhonologicalFeatureEntry>,
    d: &Definition,
) -> (r: Result<Vec<Feature>, PhlParseError>)
    ensures
        match spec_compute_features(entries.deep_view(), d@) {
            Ok(fs) => r matches Ok(v) && v.deep_view() == fs,
            Err(e) => r matches Err(x) && x@ == e,
        },
{
    let ghost ev = entries.deep_view();
    if str_eq(d.symbol.0.as_str(), "<default>") {
        if d.items.len() != 1 {
            return Err(PhlParseError::MustHaveDefaultError);
        }
        match &d.items[0] {
            DefinitionItem::Feats(fs) => Ok(duplicate_features(fs)),
            DefinitionItem::Sym(_) => Err(PhlParseError::MustHaveDefaultError),
        }
    } else {
        match find_entry_index(entries, "<default>") {
            None => Err(PhlParseError::MustHaveDefaultError),
            Some(di) => {
                proof {
                    lemma_find_symbol_bounds(ev, spec_default_symbol(), 0);
                }
                let mut acc = duplicate_features(&entries[di].features);
                let ghost itemsv = d.items.deep_view();
                let ghost acc0 = acc.deep_view();
                let mut j: usize = 0;
                while j < d.items.len()
                    invariant
                        j <= d.items.len(),
                        itemsv == d.items.deep_view(),
                        itemsv.len() == d.items.len(),
                        ev == entries.deep_view(),
                        ev.len() == entries.len(),
                        spec_compute_features(ev, d@) == spec_resolve_items(
                            ev,
                            acc.deep_view(),
                            itemsv,
                            j as int,
                        ),
                    decreases d.items.len() - j,
                {
                    match &d.items[j] {
                        DefinitionItem::Sym(s) => {
                            match find_entry_index(entries, s.0.as_str()) {
                                None => {
                                    return Err(PhlParseError::SymbolNotDefinedError(s.0.clone()));
                                },
                                Some(i) => {
                                    proof {
                                        lemma_find_symbol_bounds(ev, s@, 0);
                                    }
                                    acc = apply_features(&entries[i].features, &acc);
                                },
                            }
                        },
                        DefinitionItem::Feats(fs) => {
                            acc = apply_features(&acc, fs);
                        },
                    }
                    j = j + 1;
                }
                Ok(acc)
            },
        }
    }
}

impl PhonologicalFeatureSystem {
    /// Resolves parsed definitions into a feature system, per [`spec_build`]:
    /// declaration order is kept, `<default>` must come first, a repeated
    /// symbol or a reference to an undeclared one is an error, and the first
    /// error is the whole result.
    pub fn build(definitions: &Vec<Definition>) -> (r: Result<
        PhonologicalFeatureSystem,
        PhlParseError,
    >)
        ensures
            match spec_build(definitions.deep_view()) {
                Ok(es) => r matches Ok(sys) && sys.entries.deep_view() == es && sys.wf()
                    && sys.num_features == es[0].features.len()
                    && sys.separators.deep_view() == seq![" "@]
                    && sys.zero_cost_symbols.deep_view() == seq!["<sil>"@, "<unk>"@, "<spn>"@]
                    && sys.ignore_symbols.deep_view() == seq![
                    " "@,
                    "\u{2cc}"@,
                    "\u{2c8}"@,
                    "/"@,
                    "["@,
                    "]"@,
                ],
                Err(e) => r matches Err(x) && x@ == e,
            },
    {
        let ghost dv = definitions.deep_view();
        let mut entries: Vec<PhonologicalFeatureEntry> = Vec::new();
        let mut k: usize = 0;
        proof {
            assert(entries.deep_view() =~= Seq::<EntryView>::empty());
        }
        while k < definitions.len()
            invariant
                k <= definitions.len(),
                dv == definitions.deep_view(),
                dv.len() == definitions.len(),
                spec_fold_entries(Seq::empty(), dv, 0) == spec_fold_entries(
                    entries.deep_view(),
                    dv,
                    k as int,
                ),
            decreases definitions.len() - k,
        {
            let ghost ev = entries.deep_view();
            let d = &definitions[k];
            proof {
                assert(d@ == dv[k as int]);
            }
            if find_entry_index(&entries, d.symbol.0.as_str()).is_some() {
                return Err(PhlParseError::RedefinedSymbolError(d.symbol.0.clone()));
            }
            let features: Vec<Feature> = match compute_features(&entries, d) {
                Ok(fs) => fs,
                Err(e) => {
                    return Err(e);
                },
            };
            let ghost fsv = features.deep_view();
            let ghost prev = entries.deep_view();
            entries.push(PhonologicalFeatureEntry { symbol: d.symbol.duplicate(), features });
            proof {
                assert(entries.deep_view() =~= prev.push(
                    EntryView { symbol: dv[k as int].symbol, features: fsv },
                ));
            }
            k = k + 1;
        }
        let ghost ev = entries.deep_view();
        if entries.len() == 0 {
            return Err(PhlParseError::MustHaveDefaultError);
        }
        proof {
            reveal_strlit("<default>");
        }
        if !str_eq(entries[0].symbol.0.as_str(), "<default>") {
            return Err(PhlParseError::MustHaveDefaultError);
        }
        let num_features = entries[0].features.len();
        let mut separators: Vec<String> = Vec::new();
        separators.push(String::from_str(" "));
        let mut zero_cost_symbols: Vec<String> = Vec::new();
        zero_cost_symbols.push(String::from_str("<sil>"));
        zero_cost_symbols.push(String::from_str("<unk>"));
        zero_cost_symbols.push(String::from_str("<spn>"));
        let mut ignore_symbols: Vec<String> = Vec::new();
        ignore_symbols.push(String::from_str(" "));
        ignore_symbols.push(String::from_str("\u{2cc}"));
        ignore_symbols.push(String::from_str("\u{2c8}"));
        ignore_symbols.push(String::from_str("/"));
        ignore_symbols.push(String::from_str("["));
        ignore_symbols.push(String::from_str("]"));
        proof {
            assert(separators.deep_view() =~= seq![" "@]);
            assert(zero_cost_symbols.deep_view() =~= seq!["<sil>"@, "<unk>"@, "<spn>"@]);
            assert(ignore_symbols.deep_view() =~= seq![
                " "@,
                "\u{2cc}"@,
                "\u{2c8}"@,
                "/"@,
                "["@,
                "]"@,
            ]);
            lemma_fold_wf(Seq::empty(), dv, 0);
        }
        Ok(
            PhonologicalFeatureSystem {
                entries,
                ignore_symbols,
                zero_cost_symbols,
                separators,
                num_features,
            },
        )
    }

    /// The per-dimension differences between the resolved vectors of two
    /// declared symbols; a symbol outside the table is a
    /// [`PhlDistanceError::PhonemeNotFoundError`], the left one reported
    /// first.
    pub fn deltas(&self, a: &Symbol, b: &Symbol) -> (r: Result<Vec<FeatureDelta>, PhlDistanceError>)
        ensures
            spec_find_symbol(self.entries.deep_view(), a@) is None ==> (r matches Err(e) && e@
                == PhlDistanceErrorView::PhonemeNotFound(a@)),
            spec_find_symbol(self.entries.deep_view(), a@) is Some && spec_find_symbol(
                self.entries.deep_view(),
                b@,
            ) is None ==> (r matches Err(e) && e@ == PhlDistanceErrorView::PhonemeNotFound(b@)),
            match (
                spec_find_symbol(self.entries.deep_view(), a@),
                spec_find_symbol(self.entries.deep_view(), b@),
            ) {
                (Some(i), Some(j)) => r matches Ok(v) && v.deep_view() == spec_deltas_from(
                    self.entries.deep_view()[i].features,
                    self.entries.deep_view()[j].features,
                    0,
                ),
                _ => true,
            },
    {
        let ghost ev = self.entries.deep_view();
        let ae = match self.get_for_symbol(a) {
            Some(e) => e,
            None => {
                return Err(PhlDistanceError::PhonemeNotFoundError(a.0.clone()));
            },
        };
        let be = match self.get_for_symbol(b) {
            Some(e) => e,
            None => {
                return Err(PhlDistanceError::PhonemeNotFoundError(b.0.clone()));
            },
        };
        let ghost af = ae.features.deep_view();
        let ghost bf = be.features.deep_view();
        let n = if ae.features.len() < be.features.len() {
            ae.features.len()
        } else {
            be.features.len()
        };
        let mut out: Vec<FeatureDelta> = Vec::new();
        let mut k: usize = 0;
        proof {
            lemma_find_symbol_bounds(ev, a@, 0);
            lemma_find_symbol_bounds(ev, b@, 0);
        }
        let ghost ia = spec_find_symbol(ev, a@)->0;
        let ghost jb = spec_find_symbol(ev, b@)->0;
        while k < n
            invariant
                k <= n,
                ev == self.entries.deep_view(),
                spec_find_symbol(ev, a@) == Some(ia),
                spec_find_symbol(ev, b@) == Some(jb),
                0 <= ia < ev.len(),
                0 <= jb < ev.len(),
                af == ev[ia].features,
                bf == ev[jb].features,
                af == ae.features.deep_view(),
                bf == be.features.deep_view(),
                af.len() == ae.features.len(),
                bf.len() == be.features.len(),
                n == if af.len() < bf.len() {
                    af.len()
                } else {
                    bf.len()
                },
                spec_deltas_from(af, bf, 0) == out.deep_view() + spec_deltas_from(
                    af,
                    bf,
                    k as int,
                ),
            decreases n - k,
        {
            let fa = &ae.features[k];
            let fb = &be.features[k];
            let same = fa.value == fb.value && str_eq(fa.name.as_str(), fb.name.as_str());
            proof {
                assert(same == (af[k as int] == bf[k as int]));
            }
            if !same {
                let ghost prev = out.deep_view();
                let delta = FeatureDelta {
                    name: fa.name.clone(),
                    left: fa.value,
                    right: fb.value,
                };
                let ghost dvw = delta@;
                out.push(delta);
                proof {
                    assert(out.deep_view() =~= prev.push(dvw));
                    assert(prev + (seq![dvw] + spec_deltas_from(af, bf, k + 1)) =~= out.deep_view()
                        + spec_deltas_from(af, bf, k + 1));
                }
            }
            k = k + 1;
        }
        proof {
            assert(out.deep_view() + spec_deltas_from(af, bf, k as int) =~= out.deep_view());
        }
        Ok(out)
    }
}

// ---------------------------------------------------------------------------
// Re-serialization, and the idempotence of building
// ---------------------------------------------------------------------------
/// The definitions that re-serialize resolved entries: one definition per
/// entry, consisting of exactly its resolved feature list.
pub open spec fn spec_defs_of_entries(es: Seq<EntryView>) -> Seq<DefinitionView> {
    Seq::new(
        es.len(),
        |k: int|
            DefinitionView {
                symbol: es[k].symbol,
                items: seq![DefinitionItemView::Feats(es[k].features)],
            },
    )
}

/// No two dimensions of the default vector share a name.
pub open spec fn unique_names(def: Seq<FeatureView>) -> bool {
    forall|j1: int, j2: int|
        0 <= j1 < j2 < def.len() ==> (#[trigger] def[j1]).name != (#[trigger] def[j2]).name
}

proof fn lemma_last_override_single(fs: Seq<FeatureView>, name: Seq<char>, i: int)
    requires
        0 <= i < fs.len(),
        fs[i].name == name,
        forall|j: int| 0 <= j < fs.len() && j != i ==> (#[trigger] fs[j]).name != name,
    ensures
        spec_last_override(fs, name) == if fs[i].value.is_specified() {
            Some(fs[i])
        } else {
            None::<FeatureView>
        },
    decreases fs.len(),
{
    let last = fs[fs.len() - 1];
    if i == fs.len() - 1 {
        if !last.value.is_specified() {
            assert forall|j: int|
                0 <= j < fs.drop_last().len() implies (#[trigger] fs.drop_last()[j]).name
                != name by {
                assert(fs.drop_last()[j] == fs[j]);
            }
            lemma_last_override_none(fs.drop_last(), name);
        }
    } else {
        assert(fs.drop_last()[i] == fs[i]);
        lemma_last_override_single(fs.drop_last(), name, i);
    }
}

proof fn lemma_last_override_none(fs: Seq<FeatureView>, name: Seq<char>)
    requires
        forall|j: int| 0 <= j < fs.len() ==> (#[trigger] fs[j]).name != name,
    ensures
        spec_last_override(fs, name) is None,
    decreases fs.len(),
{
    if fs.len() > 0 {
        assert forall|j: int|
            0 <= j < fs.drop_last().len() implies (#[trigger] fs.drop_last()[j]).name != name by {
            assert(fs.drop_last()[j] == fs[j]);
        }
        lemma_last_override_none(fs.drop_last(), name);
    }
}

/// Overlaying a vector that is aligned with the default onto the default
/// gives that vector back, provided the default's names are distinct.
pub proof fn lemma_apply_self(def: Seq<FeatureView>, fs: Seq<FeatureView>)
    requires
        aligned(def, fs),
        unique_names(def),
    ensures
        spec_apply_features(def, fs) == fs,
{
    let r = spec_apply_features(def, fs);
    assert forall|i: int| 0 <= i < r.len() implies r[i] == fs[i] by {
        assert forall|j: int| 0 <= j < fs.len() && j != i implies (#[trigger] fs[j]).name
            != def[i].name by {
            assert(fs[j].name == def[j].name);
        }
        lemma_last_override_single(fs, def[i].name, i);
    }
    assert(r =~= fs);
}

proof fn lemma_rebuild_from(es: Seq<EntryView>, k: int)
    requires
        0 <= k <= es.len(),
        es.len() > 0,
        es[0].symbol == spec_default_symbol(),
        forall|i: int| 0 <= i < es.len() ==> aligned(es[0].features, (#[trigger] es[i]).features),
        forall|i: int, j: int| 0 <= i < j < es.len() ==> es[i].symbol != es[j].symbol,
        unique_names(es[0].features),
    ensures
        spec_fold_entries(es.take(k), spec_defs_of_entries(es), k) == Ok::<
            Seq<EntryView>,
            PhlParseErrorView,
        >(es),
    decreases es.len() - k,
{
    let defs = spec_defs_of_entries(es);
    if k == es.len() {
        assert(es.take(k) =~= es);
    } else {
        let d = defs[k];
        let taken = es.take(k);
        assert forall|i: int| 0 <= i < taken.len() implies (#[trigger] taken[i]).symbol
            != d.symbol by {
            assert(taken[i] == es[i]);
        }
        lemma_find_symbol_none(taken, d.symbol, 0);
        if k == 0 {
            assert(spec_compute_features(taken, d) == Ok::<Seq<FeatureView>, PhlParseErrorView>(
                es[0].features,
            ));
        } else {
            assert(taken[0] == es[0]);
            assert(d.symbol != spec_default_symbol());
            assert(spec_find_symbol(taken, spec_default_symbol()) == Some(0int));
            lemma_apply_self(es[0].features, es[k].features);
            assert(d.items.len() == 1);
            assert(d.items[0] == DefinitionItemView::Feats(es[k].features));
            assert(spec_resolve_items(
                taken,
                spec_apply_features(es[0].features, es[k].features),
                d.items,
                1,
            ) == Ok::<Seq<FeatureView>, PhlParseErrorView>(es[k].features));
            assert(spec_resolve_items(taken, es[0].features, d.items, 0) == Ok::<
                Seq<FeatureView>,
                PhlParseErrorView,
            >(es[k].features));
        }
        assert(taken.push(EntryView { symbol: d.symbol, features: es[k].features }) =~= es.take(
            k + 1,
        ));
        lemma_rebuild_from(es, k + 1);
    }
}

/// Idempotence of building: re-serializing the resolved entries of a
/// well-shaped system into equivalent definitions and rebuilding yields
/// exactly the same resolved entries, provided the default vector's feature
/// names are distinct. (With a duplicated name the overlay can collapse the
/// duplicated dimensions to one value, so the law is stated without those
/// inputs.)
pub proof fn lemma_rebuild_fixpoint(es: Seq<EntryView>)
    requires
        es.len() > 0,
        es[0].symbol == spec_default_symbol(),
        forall|i: int| 0 <= i < es.len() ==> aligned(es[0].features, (#[trigger] es[i]).features),
        forall|i: int, j: int| 0 <= i < j < es.len() ==> es[i].symbol != es[j].symbol,
        unique_names(es[0].features),
    ensures
        spec_build(spec_defs_of_entries(es)) == Ok::<Seq<EntryView>, PhlParseErrorView>(es),
{
    assert(es.take(0) =~= Seq::<EntryView>::empty());
    lemma_rebuild_from(es, 0);
}

/// The text of one feature list body, dimensions joined by `, `.
pub open spec fn spec_render_feats(fs: Seq<FeatureView>, k: int) -> Seq<char>
    decreases fs.len() - k,
{
    if k < 0 || k >= fs.len() {
        Seq::empty()
    } else {
        let item = fs[k].value.spec_text() + fs[k].name;
        if k + 1 < fs.len() {
            item + ", "@ + spec_render_feats(fs, k + 1)
        } else {
            item
        }
    }
}

/// The declaration line one resolved entry re-serializes to.
pub open spec fn spec_render_entry(e: EntryView) -> Seq<char> {
    e.symbol + " = ["@ + spec_render_feats(e.features, 0) + "]"@
}

/// A feature name the parser will read back: a letter followed by letters,
/// digits or underscores.
pub open spec fn name_ok(name: Seq<char>) -> bool {
    &&& name.len() > 0
    &&& crate::parser::is_name_start(name[0])
    &&& forall|k: int| 0 <= k < name.len() ==> crate::parser::is_name_char(#[trigger] name[k])
}

/// A symbol text the statement tokenizer will read back as one token:
/// either a class name, angle brackets around text free of `>`, or a bare
/// token free of delimiters.
pub open spec fn symbol_token_ok(sym: Seq<char>) -> bool {
    sym.len() > 0 && ((sym[0] == '<' && sym.len() >= 2 && sym[sym.len() - 1] == '>' && forall|
        k: int,
    |
        1 <= k < sym.len() - 1 ==> sym[k] != '>') || (forall|k: int|
        0 <= k < sym.len() ==> !crate::parser::is_delimiter(#[trigger] sym[k])))
}

/// Every feature of a vector bears a readable name.
pub open spec fn names_ok(fs: Seq<FeatureView>) -> bool {
    forall|k: int| 0 <= k < fs.len() ==> name_ok((#[trigger] fs[k]).name)
}

/// No character of a rendered feature-list body is a closing bracket, a
/// newline, or a `#`.
proof fn lemma_render_feats_chars(fs: Seq<FeatureView>, k: int)
    requires
        names_ok(fs),
    ensures
        forall|t: int|
            0 <= t < spec_render_feats(fs, k).len() ==> (#[trigger] spec_render_feats(fs, k)[t])
                != ']' && spec_render_feats(fs, k)[t] != '\n' && spec_render_feats(fs, k)[t] != '#',
    decreases fs.len() - k,
{
    if 0 <= k < fs.len() {
        lemma_render_feats_chars(fs, k + 1);
        crate::parser::lemma_value_of_text(fs[k].value);
        reveal_strlit(", ");
        let item = fs[k].value.spec_text() + fs[k].name;
        let whole = spec_render_feats(fs, k);
        assert forall|t: int| 0 <= t < item.len() implies (#[trigger] item[t]) != ']' && item[t]
            != '\n' && item[t] != '#' by {
            if t < fs[k].value.spec_text().len() {
                assert(item[t] == fs[k].value.spec_text()[t]);
                assert(crate::parser::is_value_char(item[t]));
            } else {
                assert(item[t] == fs[k].name[t - fs[k].value.spec_text().len()]);
                assert(crate::parser::is_name_char(item[t]));
            }
        }
        if k + 1 < fs.len() {
            assert(whole == item + ", "@ + spec_render_feats(fs, k + 1));
            assert forall|t: int| 0 <= t < whole.len() implies (#[trigger] whole[t]) != ']'
                && whole[t] != '\n' && whole[t] != '#' by {
                if t < item.len() {
                    assert(whole[t] == item[t]);
                } else if t < item.len() + 2 {
                    assert(whole[t] == ", "@[t - item.len()]);
                } else {
                    assert(whole[t] == spec_render_feats(fs, k + 1)[t - item.len() - 2]);
                }
            }
        } else {
            assert(whole == item);
        }
    }
}

/// Parsing a rendered feature-list body from the position where dimension
/// `k` starts gives back exactly the remaining dimensions.
#[verifier::rlimit(100)]
proof fn lemma_parse_items_render(
    u: Seq<char>,
    t: Seq<char>,
    fs: Seq<FeatureView>,
    k: int,
    p: int,
)
    requires
        names_ok(fs),
        0 <= k <= fs.len(),
        0 <= p <= u.len(),
        u.subrange(p, u.len() as int) == spec_render_feats(fs, k),
    ensures
        crate::parser::spec_parse_items(u, p, t) == Ok::<Seq<FeatureView>, PhlParseErrorView>(
            fs.subrange(k, fs.len() as int),
        ),
    decreases fs.len() - k,
{
    let rest = u.subrange(p, u.len() as int);
    if k == fs.len() {
        assert(rest.len() == 0);
        assert(fs.subrange(k, fs.len() as int) =~= Seq::<FeatureView>::empty());
    } else {
        crate::parser::lemma_value_of_text(fs[k].value);
        reveal_strlit(", ");
        let vt = fs[k].value.spec_text();
        let name = fs[k].name;
        let vl = vt.len() as int;
        let nl = name.len() as int;
        let item = vt + name;
        // Character layout of the remaining text.
        if k + 1 < fs.len() {
            assert(rest == item + ", "@ + spec_render_feats(fs, k + 1));
        } else {
            assert(rest == item);
        }
        assert(rest.len() == u.len() - p);
        assert(rest[0] == item[0] && item[0] == vt[0]);
        assert(u[p] == rest[0]);
        assert(crate::parser::is_value_char(u[p]));
        assert(!crate::parser::is_space(u[p]) && u[p] != ',') by {
            assert(crate::parser::is_value_char(u[p]));
        }
        assert(!crate::parser::is_name_start(u[p]));
        // The value runs exactly `vl` characters: the next character is the
        // name's letter, which is no value character.
        assert(rest[vl] == item[vl] && item[vl] == name[0]);
        assert(u[p + vl] == rest[vl]);
        assert(crate::parser::is_name_start(u[p + vl]));
        assert(!crate::parser::is_value_char(u[p + vl]));
        if vl == 2 {
            assert(rest[1] == item[1] && item[1] == vt[1]);
            assert(u[p + 1] == rest[1]);
        }
        let vend = if p + 1 < u.len() && crate::parser::is_value_char(u[p + 1]) {
            p + 2
        } else {
            p + 1
        };
        assert(vend == p + vl);
        assert(u.subrange(p, vend) =~= vt) by {
            assert forall|i: int| 0 <= i < vl implies #[trigger] u.subrange(p, vend)[i]
                == vt[i] by {
                assert(u.subrange(p, vend)[i] == u[p + i]);
                assert(u[p + i] == rest[i]);
                assert(rest[i] == item[i] && item[i] == vt[i]);
            }
        }
        assert(crate::parser::spec_value_of(u.subrange(p, vend)) == Some(fs[k].value));
        crate::parser::lemma_skip_spaces_exact(u, vend, vend);
        assert forall|i: int| p + vl + 1 <= i < p + vl + nl implies crate::parser::is_name_char(
            #[trigger] u[i],
        ) by {
            assert(u[i] == rest[i - p]);
            assert(rest[i - p] == item[i - p] && item[i - p] == name[i - p - vl]);
        }
        let ne = p + vl + nl;
        if k + 1 < fs.len() {
            assert(u[ne] == rest[ne - p]);
            assert(rest[ne - p] == ", "@[0]);
            assert(u[ne] == ',');
            assert(!crate::parser::is_name_char(u[ne]));
            crate::parser::lemma_name_end_exact(u, p + vl + 1, ne);
            assert(u.subrange(vend, ne) =~= name) by {
                assert forall|i: int| 0 <= i < nl implies #[trigger] u.subrange(vend, ne)[i]
                    == name[i] by {
                    assert(u.subrange(vend, ne)[i] == u[vend + i]);
                    assert(u[vend + i] == rest[vl + i]);
                    assert(rest[vl + i] == item[vl + i] && item[vl + i] == name[i]);
                }
            }
            assert(u[ne + 1] == rest[ne + 1 - p]);
            assert(rest[ne + 1 - p] == ", "@[1]);
            assert(u[ne + 1] == ' ');
            assert(u.len() - ne - 2 == spec_render_feats(fs, k + 1).len());
            assert(u.subrange(ne + 2, u.len() as int) =~= spec_render_feats(fs, k + 1)) by {
                assert forall|i: int|
                    0 <= i < u.len() - ne - 2 implies #[trigger] u.subrange(
                    ne + 2,
                    u.len() as int,
                )[i] == spec_render_feats(fs, k + 1)[i] by {
                    assert(u.subrange(ne + 2, u.len() as int)[i] == u[ne + 2 + i]);
                    assert(u[ne + 2 + i] == rest[ne + 2 + i - p]);
                    assert(rest[ne + 2 + i - p] == spec_render_feats(fs, k + 1)[i]);
                }
            }
            lemma_parse_items_render(u, t, fs, k + 1, ne + 2);
            assert(crate::parser::spec_parse_items(u, ne + 1, t) == Ok::<
                Seq<FeatureView>,
                PhlParseErrorView,
            >(fs.subrange(k + 1, fs.len() as int)));
            assert(crate::parser::spec_parse_items(u, ne, t) == Ok::<
                Seq<FeatureView>,
                PhlParseErrorView,
            >(fs.subrange(k + 1, fs.len() as int)));
            assert(seq![fs[k]] + fs.subrange(k + 1, fs.len() as int) =~= fs.subrange(
                k,
                fs.len() as int,
            ));
        } else {
            assert(ne == u.len());
            crate::parser::lemma_name_end_exact(u, p + vl + 1, ne);
            assert(u.subrange(vend, ne) =~= name) by {
                assert forall|i: int| 0 <= i < nl implies #[trigger] u.subrange(vend, ne)[i]
                    == name[i] by {
                    assert(u.subrange(vend, ne)[i] == u[vend + i]);
                    assert(u[vend + i] == rest[vl + i]);
                    assert(rest[vl + i] == item[vl + i] && item[vl + i] == name[i]);
                }
            }
            assert(crate::parser::spec_parse_items(u, ne, t) == Ok::<
                Seq<FeatureView>,
                PhlParseErrorView,
            >(Seq::empty()));
            assert(seq![fs[k]] + Seq::<FeatureView>::empty() =~= fs.subrange(k, fs.len() as int));
        }
    }
}

/// The statement tokenizer reads a rendered entry line back as exactly
/// three tokens: the symbol, `=`, and the bracketed feature list.
#[verifier::rlimit(100)]
proof fn lemma_tokenize_render_line(e: EntryView)
    requires
        symbol_token_ok(e.symbol),
        names_ok(e.features),
    ensures
        crate::parser::spec_tokenize(spec_render_entry(e)) == Ok::<
            Seq<Seq<char>>,
            PhlParseErrorView,
        >(seq![e.symbol, seq!['='], "["@ + spec_render_feats(e.features, 0) + "]"@]),
{
    reveal_strlit(" = [");
    reveal_strlit("]");
    reveal_strlit("[");
    let sym = e.symbol;
    let body = spec_render_feats(e.features, 0);
    let tk = "["@ + body + "]"@;
    let line = spec_render_entry(e);
    let s = sym.len() as int;
    let blen = body.len() as int;
    lemma_render_feats_chars(e.features, 0);
    assert(line == sym + " = ["@ + body + "]"@);
    assert(line.len() == s + 4 + blen + 1);
    assert forall|i: int| 0 <= i < s implies #[trigger] line[i] == sym[i] by {
        assert(line[i] == (sym + " = ["@)[i]);
    }
    assert(line[s] == ' ' && line[s + 1] == '=' && line[s + 2] == ' ' && line[s + 3] == '[') by {
        assert(line[s] == (sym + " = ["@)[s]);
        assert(line[s + 1] == (sym + " = ["@)[s + 1]);
        assert(line[s + 2] == (sym + " = ["@)[s + 2]);
        assert(line[s + 3] == (sym + " = ["@)[s + 3]);
    }
    assert forall|i: int| 0 <= i < blen implies #[trigger] line[s + 4 + i] == body[i] by {
        assert(line[s + 4 + i] == (sym + " = ["@ + body)[s + 4 + i]);
    }
    assert(line[s + 4 + blen] == ']');
    // The symbol becomes the first token.
    if sym[0] == '<' && sym.len() >= 2 && sym[sym.len() - 1] == '>' && (forall|k: int|
        1 <= k < sym.len() - 1 ==> sym[k] != '>') {
        assert forall|k: int| 1 <= k < s - 1 implies #[trigger] line[k] != '>' by {
            assert(line[k] == sym[k]);
        }
        crate::parser::lemma_find_char_exact(line, '>', 1, s - 1);
        assert(line.subrange(0, s) =~= sym);
    } else {
        assert(forall|k: int| 0 <= k < s ==> !crate::parser::is_delimiter(#[trigger] sym[k]));
        assert forall|k: int| 1 <= k < s implies !crate::parser::is_delimiter(
            #[trigger] line[k],
        ) by {
            assert(line[k] == sym[k]);
        }
        crate::parser::lemma_bare_end_exact(line, 1, s);
        assert(line.subrange(0, s) =~= sym);
    }
    // Then whitespace, `=`, whitespace, and the feature-list token.
    assert forall|k: int| s + 4 <= k < s + 4 + blen implies #[trigger] line[k] != ']' by {
        assert(line[k] == body[k - s - 4]);
    }
    crate::parser::lemma_find_char_exact(line, ']', s + 4, s + 4 + blen);
    assert(line.subrange(s + 3, s + 4 + blen + 1) =~= tk) by {
        assert forall|i: int| 0 <= i < blen + 2 implies #[trigger] line.subrange(
            s + 3,
            s + 4 + blen + 1,
        )[i] == tk[i] by {
            assert(line.subrange(s + 3, s + 4 + blen + 1)[i] == line[s + 3 + i]);
            if i == 0 {
                assert(tk[0] == "["@[0]);
            } else if i < blen + 1 {
                assert(tk[i] == body[i - 1]);
                assert(line[s + 3 + i] == body[i - 1]);
            } else {
                assert(tk[i] == "]"@[0]);
            }
        }
    }
    assert(crate::parser::spec_tokenize_from(line, s + 5 + blen) == Ok::<
        Seq<Seq<char>>,
        PhlParseErrorView,
    >(Seq::empty()));
    assert(crate::parser::spec_tokenize_from(line, s + 3) == Ok::<
        Seq<Seq<char>>,
        PhlParseErrorView,
    >(seq![tk] + Seq::empty()));
    assert(crate::parser::spec_tokenize_from(line, s + 2) == Ok::<
        Seq<Seq<char>>,
        PhlParseErrorView,
    >(seq![tk]));
    assert(crate::parser::spec_tokenize_from(line, s + 1) == Ok::<
        Seq<Seq<char>>,
        PhlParseErrorView,
    >(seq![seq!['=']] + seq![tk]));
    assert(crate::parser::spec_tokenize_from(line, s) == Ok::<Seq<Seq<char>>, PhlParseErrorView>(
        seq![seq!['=']] + seq![tk],
    ));
    assert(crate::parser::spec_tokenize_from(line, 0) == Ok::<Seq<Seq<char>>, PhlParseErrorView>(
        seq![sym] + (seq![seq!['=']] + seq![tk]),
    ));
    assert(seq![sym] + (seq![seq!['=']] + seq![tk]) =~= seq![sym, seq!['='], tk]);
}

/// Parsing a rendered feature-list token gives back exactly the features.
proof fn lemma_parse_features_render(fs: Seq<FeatureView>)
    requires
        names_ok(fs),
    ensures
        crate::parser::spec_parse_features("["@ + spec_render_feats(fs, 0) + "]"@) == Ok::<
            Seq<FeatureView>,
            PhlParseErrorView,
        >(fs),
{
    reveal_strlit("[");
    reveal_strlit("]");
    let body = spec_render_feats(fs, 0);
    let blen = body.len() as int;
    let tk = "["@ + body + "]"@;
    assert(tk.len() == blen + 2);
    assert(tk[0] == '[') by {
        assert(tk[0] == ("["@ + body)[0]);
    }
    assert(tk[tk.len() - 1] == ']');
    crate::parser::lemma_trim_identity(tk);
    let a = tk.subrange(1, tk.len() as int);
    assert(a[a.len() - 1] == ']') by {
        assert(a[a.len() - 1] == tk[tk.len() - 1]);
    }
    let stripped = a.subrange(0, a.len() - 1);
    assert(crate::parser::spec_list_body(tk) == stripped);
    assert(stripped =~= body) by {
        assert forall|i: int| 0 <= i < blen implies #[trigger] stripped[i] == body[i] by {
            assert(stripped[i] == a[i]);
            assert(a[i] == tk[i + 1]);
            assert(tk[i + 1] == ("["@ + body)[i + 1]);
        }
    }
    assert(body.subrange(0, blen) =~= spec_render_feats(fs, 0));
    lemma_parse_items_render(body, tk, fs, 0, 0);
    assert(fs.subrange(0, fs.len() as int) =~= fs);
}

/// Parsing a rendered entry line gives back exactly the re-serialized
/// definition.
proof fn lemma_parse_definition_render(e: EntryView)
    requires
        symbol_token_ok(e.symbol),
        names_ok(e.features),
    ensures
        crate::parser::spec_tokenize_definition(spec_render_entry(e)) matches Ok(od) && od
            matches Some(d) && d == (DefinitionView {
            symbol: e.symbol,
            items: seq![DefinitionItemView::Feats(e.features)],
        }),
{
    reveal_strlit("=");
    reveal_strlit("[");
    reveal_strlit("]");
    lemma_tokenize_render_line(e);
    lemma_parse_features_render(e.features);
    let tk = "["@ + spec_render_feats(e.features, 0) + "]"@;
    let ts = seq![e.symbol, seq!['='], tk];
    assert(ts[1] == "="@) by {
        assert(seq!['='] =~= "="@);
    }
    assert(tk[0] == '[') by {
        assert(tk[0] == ("["@ + spec_render_feats(e.features, 0))[0]);
    }
    assert(tk != "="@) by {
        assert(tk.len() >= 2);
    }
    assert(crate::parser::spec_items_of_tokens(ts, 3) == Ok::<
        Seq<DefinitionItemView>,
        PhlParseErrorView,
    >(Seq::empty()));
    assert(crate::parser::spec_items_of_tokens(ts, 2) == Ok::<
        Seq<DefinitionItemView>,
        PhlParseErrorView,
    >(seq![DefinitionItemView::Feats(e.features)] + Seq::empty()));
    assert(seq![DefinitionItemView::Feats(e.features)] + Seq::<DefinitionItemView>::empty()
        =~= seq![DefinitionItemView::Feats(e.features)]);
}

/// Parsing every rendered line, from entry `k` on, gives back exactly the
/// re-serialized definitions.
proof fn lemma_parse_render_lines(es: Seq<EntryView>, lines: Seq<Seq<char>>, k: int)
    requires
        0 <= k <= es.len(),
        lines.len() == es.len(),
        forall|q: int| 0 <= q < es.len() ==> lines[q] == spec_render_entry(#[trigger] es[q]),
        forall|q: int| 0 <= q < es.len() ==> symbol_token_ok((#[trigger] es[q]).symbol),
        forall|q: int| 0 <= q < es.len() ==> names_ok((#[trigger] es[q]).features),
    ensures
        crate::parser::spec_parse_lines(lines, k) == Ok::<Seq<DefinitionView>, PhlParseErrorView>(
            spec_defs_of_entries(es).subrange(k, es.len() as int),
        ),
    decreases es.len() - k,
{
    let defs = spec_defs_of_entries(es);
    if k == es.len() {
        assert(defs.subrange(k, es.len() as int) =~= Seq::<DefinitionView>::empty());
    } else {
        lemma_parse_definition_render(es[k]);
        lemma_parse_render_lines(es, lines, k + 1);
        assert(seq![defs[k]] + defs.subrange(k + 1, es.len() as int) =~= defs.subrange(
            k,
            es.len() as int,
        ));
    }
}

/// Idempotence of building, at the level of source text: rendering the
/// resolved entries of a well-shaped system into declaration lines, parsing
/// those lines, and rebuilding yields exactly the same resolved entries —
/// provided the default vector's names are distinct, every feature name is a
/// readable identifier, and every symbol text reads back as one token.
pub proof fn lemma_render_parse_rebuild(es: Seq<EntryView>, lines: Seq<Seq<char>>)
    requires
        es.len() > 0,
        es[0].symbol == spec_default_symbol(),
        forall|i: int| 0 <= i < es.len() ==> aligned(es[0].features, (#[trigger] es[i]).features),
        forall|i: int, j: int| 0 <= i < j < es.len() ==> es[i].symbol != es[j].symbol,
        unique_names(es[0].features),
        lines.len() == es.len(),
        forall|q: int| 0 <= q < es.len() ==> lines[q] == spec_render_entry(#[trigger] es[q]),
        forall|q: int| 0 <= q < es.len() ==> symbol_token_ok((#[trigger] es[q]).symbol),
        forall|q: int| 0 <= q < es.len() ==> names_ok((#[trigger] es[q]).features),
    ensures
        crate::parser::spec_parse_lines(lines, 0) == Ok::<Seq<DefinitionView>, PhlParseErrorView>(
            spec_defs_of_entries(es),
        ),
        spec_build(spec_defs_of_entries(es)) == Ok::<Seq<EntryView>, PhlParseErrorView>(es),
{
    lemma_parse_render_lines(es, lines, 0);
    assert(spec_defs_of_entries(es).subrange(0, es.len() as int) =~= spec_defs_of_entries(es));
    lemma_rebuild_fixpoint(es);
}

impl PhonologicalFeatureSystem {
    /// Re-serializes the resolved entries into equivalent declaration lines,
    /// one per entry, each consisting of exactly its resolved feature list.
    pub fn render_lines(&self) -> (r: Vec<String>)
        ensures
            r.deep_view().len() == self.entries.deep_view().len(),
            forall|k: int|
                0 <= k < r.deep_view().len() ==> r.deep_view()[k] == spec_render_entry(
                    #[trigger] self.entries.deep_view()[k],
                ),
    {
        let ghost ev = self.entries.deep_view();
        let mut out: Vec<String> = Vec::new();
        let mut k: usize = 0;
        while k < self.entries.len()
            invariant
                k <= self.entries.len(),
                ev == self.entries.deep_view(),
                ev.len() == self.entries.len(),
                out.deep_view().len() == k,
                forall|q: int|
                    0 <= q < k ==> out.deep_view()[q] == spec_render_entry(#[trigger] ev[q]),
            decreases self.entries.len() - k,
        {
            let e = &self.entries[k];
            let mut line = e.symbol.0.clone();
            line.append(" = [");
            let ghost head = line@;
            let fs = &e.features;
            let ghost fv = fs.deep_view();
            let mut q: usize = 0;
            while q < fs.len()
                invariant
                    q <= fs.len(),
                    fv == fs.deep_view(),
                    fv.len() == fs.len(),
                    head + spec_render_feats(fv, 0) == line@ + spec_render_feats(fv, q as int),
                decreases fs.len() - q,
            {
                let ghost before = line@;
                line.append(fs[q].value.canonical_text());
                line.append(fs[q].name.as_str());
                if q + 1 < fs.len() {
                    line.append(", ");
                    proof {
                        assert(before + (fv[q as int].value.spec_text() + fv[q as int].name + ", "@
                            + spec_render_feats(fv, q + 1)) =~= line@ + spec_render_feats(
                            fv,
                            q + 1,
                        ));
                    }
                } else {
                    proof {
                        assert(before + (fv[q as int].value.spec_text() + fv[q as int].name)
                            =~= line@ + spec_render_feats(fv, q + 1));
                    }
                }
                q = q + 1;
            }
            proof {
                assert(head + spec_render_feats(fv, 0) =~= line@);
            }
            line.append("]");
            let ghost lv = line@;
            proof {
                assert(lv =~= spec_render_entry(ev[k as int]));
            }
            let ghost prev = out.deep_view();
            out.push(line);
            proof {
                assert(out.deep_view() =~= prev.push(lv));
            }
            k = k + 1;
        }
        out
    }
}

/// The dimensions on which two aligned vectors differ, from index `k` on,
/// each with its name and the two values.
pub open spec fn spec_deltas_from(
    af: Seq<FeatureView>,
    bf: Seq<FeatureView>,
    k: int,
) -> Seq<FeatureDeltaView>
    decreases af.len() - k,
{
    if k < 0 || k >= af.len() || k >= bf.len() {
        Seq::empty()
    } else {
        let rest = spec_deltas_from(af, bf, k + 1);
        if af[k] != bf[k] {
            seq![FeatureDeltaView { name: af[k].name, left: af[k].value, right: bf[k].value }]
                + rest
        } else {
            rest
        }
    }
}

} // verus!
