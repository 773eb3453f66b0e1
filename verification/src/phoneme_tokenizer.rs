use vstd::prelude::*;

use crate::features::{spec_is_class, Symbol};
use crate::systems::{seq_contains_text, EntryView, PhonologicalFeatureSystem};

verus! {

/// Whether `p` occurs in `t` starting exactly at `at`.
pub open spec fn spec_prefix_at(p: Seq<char>, t: Seq<char>, at: int) -> bool {
    0 <= at && at + p.len() <= t.len() && t.subrange(at, at + p.len()) == p
}

/// The length the tokenizer consumes at `at`: the length of the longest
/// non-empty pattern matching there, or one character as a last resort.
/// Scanning from index `k` of the pattern list.
pub open spec fn spec_best_from(
    patterns: Seq<Seq<char>>,
    t: Seq<char>,
    at: int,
    k: int,
) -> int
    decreases patterns.len() - k,
{
    if k < 0 || k >= patterns.len() {
        1
    } else {
        let rest = spec_best_from(patterns, t, at, k + 1);
        let p = patterns[k];
        if p.len() >= 1 && spec_prefix_at(p, t, at) && p.len() > rest {
            p.len() as int
        } else {
            rest
        }
    }
}

pub proof fn lemma_best_bounds(patterns: Seq<Seq<char>>, t: Seq<char>, at: int, k: int)
    requires
        0 <= at < t.len(),
    ensures
        1 <= spec_best_from(patterns, t, at, k),
        at + spec_best_from(patterns, t, at, k) <= t.len(),
    decreases patterns.len() - k,
{
    if 0 <= k < patterns.len() {
        lemma_best_bounds(patterns, t, at, k + 1);
    }
}

/// The segmentation of `t` from `at` on: at each position the longest
/// matching pattern is consumed as one token, and a position no pattern
/// matches yields a single-character token.
pub open spec fn spec_split_from(patterns: Seq<Seq<char>>, t: Seq<char>, at: int) -> Seq<Seq<char>>
    decreases t.len() - at,
    via spec_split_from_decreases
{
    if at < 0 || at >= t.len() {
        Seq::empty()
    } else {
        let l = spec_best_from(patterns, t, at, 0);
        seq![t.subrange(at, at + l)] + spec_split_from(patterns, t, at + l)
    }
}

#[via_fn]
proof fn spec_split_from_decreases(patterns: Seq<Seq<char>>, t: Seq<char>, at: int) {
    if 0 <= at < t.len() {
        lemma_best_bounds(patterns, t, at, 0);
    }
}

/// Tokens that survive the separator and ignore filters.
pub open spec fn spec_filter_tokens(
    toks: Seq<Seq<char>>,
    seps: Seq<Seq<char>>,
    ignores: Seq<Seq<char>>,
) -> Seq<Seq<char>>
    decreases toks.len(),
{
    if toks.len() == 0 {
        Seq::empty()
    } else {
        let rest = spec_filter_tokens(toks.drop_first(), seps, ignores);
        if seq_contains_text(seps, toks[0]) || seq_contains_text(ignores, toks[0]) {
            rest
        } else {
            seq![toks[0]] + rest
        }
    }
}

/// The literal texts of the non-class declared symbols, in declaration
/// order, empty texts left out (an empty text can never match).
pub open spec fn spec_symbol_patterns(es: Seq<EntryView>, k: int) -> Seq<Seq<char>>
    decreases es.len() - k,
{
    if k < 0 || k >= es.len() {
        Seq::empty()
    } else {
        let rest = spec_symbol_patterns(es, k + 1);
        if !spec_is_class(es[k].symbol) && es[k].symbol.len() > 0 {
            seq![es[k].symbol] + rest
        } else {
            rest
        }
    }
}

/// The non-empty texts of a marker list, in order.
pub open spec fn spec_nonempty_texts(ss: Seq<Seq<char>>, k: int) -> Seq<Seq<char>>
    decreases ss.len() - k,
{
    if k < 0 || k >= ss.len() {
        Seq::empty()
    } else {
        let rest = spec_nonempty_texts(ss, k + 1);
        if ss[k].len() > 0 {
            seq![ss[k]] + rest
        } else {
            rest
        }
    }
}

/// The match candidates a system's tokenizer is built from: every literal
/// (non-class) declared symbol, the separators, and the zero-cost markers.
pub open spec fn spec_patterns_of(system: &PhonologicalFeatureSystem) -> Seq<Seq<char>> {
    spec_symbol_patterns(system.entries.deep_view(), 0) + spec_nonempty_texts(
        system.separators.deep_view(),
        0,
    ) + spec_nonempty_texts(system.zero_cost_symbols.deep_view(), 0)
}

/// Segments raw text into a feature system's symbols by longest match,
/// consuming separators and ignorable markers as boundaries.
pub struct PhonemeTokenizer {
    pub patterns: Vec<String>,
    pub separators: Vec<String>,
    pub ignore_symbols: Vec<String>,
}

fn is_prefix_at(p: &str, t: &str, at: usize) -> (r: bool)
    requires
        at <= t@.len(),
    ensures
        r == spec_prefix_at(p@, t@, at as int),
{
    let pn = p.unicode_len();
    let tn = t.unicode_len();
    if pn > tn - at {
        return false;
    }
    for k in 0..pn
        invariant
            pn == p@.len(),
            tn == t@.len(),
            at + pn <= tn,
            forall|q: int| 0 <= q < k ==> p@[q] == t@[at + q],
    {
        if p.get_char(k) != t.get_char(at + k) {
            proof {
                assert(t@.subrange(at as int, at + p@.len())[k as int] == t@[at + k]);
            }
            return false;
        }
    }
    proof {
        assert(t@.subrange(at as int, at + p@.len()) =~= p@);
    }
    true
}

impl PhonemeTokenizer {
    /// Builds the tokenizer of a system: its candidates per
    /// [`spec_patterns_of`], and the system's separator and ignore sets.
    pub fn build(system: &PhonologicalFeatureSystem) -> (r: PhonemeTokenizer)
        ensures
            r.patterns.deep_view() == spec_patterns_of(system),
            r.separators.deep_view() == system.separators.deep_view(),
            r.ignore_symbols.deep_view() == system.ignore_symbols.deep_view(),
    {
        let ghost ev = system.entries.deep_view();
        let mut patterns: Vec<String> = Vec::new();
        let mut k: usize = 0;
        while k < system.entries.len()
            invariant
                k <= system.entries.len(),
                ev == system.entries.deep_view(),
                ev.len() == system.entries.len(),
                spec_symbol_patterns(ev, 0) == patterns.deep_view() + spec_symbol_patterns(
                    ev,
                    k as int,
                ),
            decreases system.entries.len() - k,
        {
            let sym = &system.entries[k].symbol;
            if !sym.is_class() && sym.len() > 0 {
                let ghost prev = patterns.deep_view();
                patterns.push(sym.0.clone());
                proof {
                    assert(patterns.deep_view() =~= prev.push(ev[k as int].symbol));
                    assert(prev + (seq![ev[k as int].symbol] + spec_symbol_patterns(ev, k + 1))
                        =~= patterns.deep_view() + spec_symbol_patterns(ev, k + 1));
                }
            }
            k = k + 1;
        }
        proof {
            assert(patterns.deep_view() + spec_symbol_patterns(ev, k as int)
                =~= patterns.deep_view());
        }
        append_nonempty(&mut patterns, &system.separators);
        append_nonempty(&mut patterns, &system.zero_cost_symbols);
        proof {
            assert(patterns.deep_view() =~= spec_patterns_of(system));
        }
        let separators = duplicate_texts(&system.separators);
        let ignore_symbols = duplicate_texts(&system.ignore_symbols);
        PhonemeTokenizer { patterns, separators, ignore_symbols }
    }

    /// Splits raw text into the system's symbols: longest-match first, one
    /// emergency character where nothing matches, separators and ignorable
    /// markers dropped.
    pub fn tokenize(&self, s: &str) -> (r: Vec<Symbol>)
        ensures
            r.deep_view() == spec_filter_tokens(
                spec_split_from(self.patterns.deep_view(), s@, 0),
                self.separators.deep_view(),
                self.ignore_symbols.deep_view(),
            ),
    {
        let ghost pv = self.patterns.deep_view();
        let ghost sepv = self.separators.deep_view();
        let ghost ignv = self.ignore_symbols.deep_view();
        let n = s.unicode_len();
        let mut out: Vec<Symbol> = Vec::new();
        let mut at: usize = 0;
        proof {
            assert(out.deep_view() + spec_filter_tokens(spec_split_from(pv, s@, 0), sepv, ignv)
                =~= spec_filter_tokens(spec_split_from(pv, s@, 0), sepv, ignv));
        }
        while at < n
            invariant
                at <= n,
                n == s@.len(),
                pv == self.patterns.deep_view(),
                sepv == self.separators.deep_view(),
                ignv == self.ignore_symbols.deep_view(),
                spec_filter_tokens(spec_split_from(pv, s@, 0), sepv, ignv) == out.deep_view()
                    + spec_filter_tokens(spec_split_from(pv, s@, at as int), sepv, ignv),
            decreases n - at,
        {
            let l = self.best_match(s, at);
            proof {
                lemma_best_bounds(pv, s@, at as int, 0);
            }
            let token = s.substring_char(at, at + l);
            let ghost split_rest = spec_split_from(pv, s@, at + l);
            proof {
                assert((seq![token@] + split_rest).drop_first() =~= split_rest);
                assert(spec_split_from(pv, s@, at as int) == seq![token@] + split_rest);
            }
            let drop = crate::systems::contains_text(&self.separators, token)
                || crate::systems::contains_text(&self.ignore_symbols, token);
            if !drop {
                let ghost prev = out.deep_view();
                out.push(Symbol(token.to_owned()));
                proof {
                    assert(out.deep_view() =~= prev.push(token@));
                    assert(prev + (seq![token@] + spec_filter_tokens(split_rest, sepv, ignv))
                        =~= out.deep_view() + spec_filter_tokens(split_rest, sepv, ignv));
                }
            }
            at = at + l;
        }
        proof {
            assert(out.deep_view() + spec_filter_tokens(
                spec_split_from(pv, s@, at as int),
                sepv,
                ignv,
            ) =~= out.deep_view());
        }
        out
    }

    /// The number of characters consumed at `at`, per [`spec_best_from`].
    fn best_match(&self, s: &str, at: usize) -> (r: usize)
        requires
            at < s@.len(),
        ensures
            r as int == spec_best_from(self.patterns.deep_view(), s@, at as int, 0),
    {
        let ghost pv = self.patterns.deep_view();
        let mut best: usize = 1;
        let mut k: usize = 0;
        proof {
            lemma_best_bounds(pv, s@, at as int, 0);
        }
        while k < self.patterns.len()
            invariant
                k <= self.patterns.len(),
                at < s@.len(),
                pv == self.patterns.deep_view(),
                pv.len() == self.patterns.len(),
                1 <= best,
                spec_best_from(pv, s@, at as int, 0) == (if spec_best_from(pv, s@, at as int, k as int)
                    > best {
                    spec_best_from(pv, s@, at as int, k as int)
                } else {
                    best as int
                }),
            decreases self.patterns.len() - k,
        {
            let p = &self.patterns[k];
            let pl = p.as_str().unicode_len();
            if pl >= 1 && pl > best && is_prefix_at(p.as_str(), s, at) {
                best = pl;
            } else {
                proof {
                    if pv[k as int].len() >= 1 && spec_prefix_at(pv[k as int], s@, at as int)
                        && pv[k as int].len() > spec_best_from(pv, s@, at as int, k + 1) {
                        assert(pv[k as int].len() <= best);
                    }
                }
            }
            k = k + 1;
        }
        best
    }
}

/// Appends the non-empty texts of `src` to `dst`.
fn append_nonempty(dst: &mut Vec<String>, src: &Vec<String>) -> (r: ())
    ensures
        final(dst).deep_view() == old(dst).deep_view() + spec_nonempty_texts(src.deep_view(), 0),
{
    let ghost base = dst.deep_view();
    let ghost sv = src.deep_view();
    let mut k: usize = 0;
    while k < src.len()
        invariant
            k <= src.len(),
            sv == src.deep_view(),
            sv.len() == src.len(),
            base == old(dst).deep_view(),
            base + spec_nonempty_texts(sv, 0) == dst.deep_view() + spec_nonempty_texts(
                sv,
                k as int,
            ),
        decreases src.len() - k,
    {
        let t = &src[k];
        if t.as_str().unicode_len() > 0 {
            let ghost prev = dst.deep_view();
            dst.push(t.clone());
            proof {
                assert(dst.deep_view() =~= prev.push(sv[k as int]));
                assert(prev + (seq![sv[k as int]] + spec_nonempty_texts(sv, k + 1))
                    =~= dst.deep_view() + spec_nonempty_texts(sv, k + 1));
            }
        }
        k = k + 1;
    }
    proof {
        assert(dst.deep_view() + spec_nonempty_texts(sv, k as int) =~= dst.deep_view());
        assert(base + spec_nonempty_texts(sv, 0) =~= dst.deep_view());
    }
}

/// An owned copy of a list of texts, equal in content.
fn duplicate_texts(v: &Vec<String>) -> (r: Vec<String>)
    ensures
        r.deep_view() == v.deep_view(),
{
    let mut r: Vec<String> = Vec::new();
    for i in 0..v.len()
        invariant
            r.deep_view().len() == i,
            forall|q: int| 0 <= q < i ==> r.deep_view()[q] == v.deep_view()[q],
    {
        let ghost prev = r.deep_view();
        r.push(v[i].clone());
        proof {
            assert(r.deep_view() =~= prev.push(v.deep_view()[i as int]));
        }
    }
    proof {
        assert(r.deep_view() =~= v.deep_view());
    }
    r
}

} // verus!
