use vstd::prelude::*;

use crate::errors::{PhlParseError, PhlParseErrorView};
use crate::features::{str_eq, Feature, FeatureValue, FeatureView, Symbol};

verus! {

// ---------------------------------------------------------------------------
// Character classes of the declaration language
// ---------------------------------------------------------------------------
/// Whitespace separating tokens of a statement line.
pub open spec fn is_space(c: char) -> bool {
    c == ' ' || c == '\t' || c == '\r' || c == '\n'
}

/// Characters that end a bare symbol token.
pub open spec fn is_delimiter(c: char) -> bool {
    is_space(c) || c == '#' || c == '=' || c == '[' || c == ']' || c == '<' || c == '>'
}

/// Characters a feature value may be written with.
pub open spec fn is_value_char(c: char) -> bool {
    c == '+' || c == '-' || c == '0' || c == '?'
}

/// Characters a feature name may start with.
pub open spec fn is_name_start(c: char) -> bool {
    ('A' <= c && c <= 'Z') || ('a' <= c && c <= 'z')
}

/// Characters a feature name may continue with.
pub open spec fn is_name_char(c: char) -> bool {
    is_name_start(c) || ('0' <= c && c <= '9') || c == '_'
}

fn exec_is_space(c: char) -> (r: bool)
    ensures
        r == is_space(c),
{
    c == ' ' || c == '\t' || c == '\r' || c == '\n'
}

fn exec_is_delimiter(c: char) -> (r: bool)
    ensures
        r == is_delimiter(c),
{
    exec_is_space(c) || c == '#' || c == '=' || c == '[' || c == ']' || c == '<' || c == '>'
}

fn exec_is_value_char(c: char) -> (r: bool)
    ensures
        r == is_value_char(c),
{
    c == '+' || c == '-' || c == '0' || c == '?'
}

fn exec_is_name_start(c: char) -> (r: bool)
    ensures
        r == is_name_start(c),
{
    ('A' <= c && c <= 'Z') || ('a' <= c && c <= 'z')
}

fn exec_is_name_char(c: char) -> (r: bool)
    ensures
        r == is_name_char(c),
{
    exec_is_name_start(c) || ('0' <= c && c <= '9') || c == '_'
}

// ---------------------------------------------------------------------------
// Scanning helpers
// ---------------------------------------------------------------------------
/// The least index at or after `p` holding `c`, if any.
pub open spec fn spec_find_char(s: Seq<char>, c: char, p: int) -> Option<int>
    decreases s.len() - p,
{
    if p < 0 || p >= s.len() {
        None
    } else if s[p] == c {
        Some(p)
    } else {
        spec_find_char(s, c, p + 1)
    }
}

pub proof fn lemma_find_char_bounds(s: Seq<char>, c: char, p: int)
    requires
        spec_find_char(s, c, p) is Some,
    ensures
        p <= spec_find_char(s, c, p)->0 < s.len(),
        s[spec_find_char(s, c, p)->0] == c,
    decreases s.len() - p,
{
    if !(p < 0 || p >= s.len()) && s[p] != c {
        lemma_find_char_bounds(s, c, p + 1);
    }
}

/// The least index at or after `p` holding a delimiter, or the length.
pub open spec fn spec_bare_end(s: Seq<char>, p: int) -> int
    decreases s.len() - p,
{
    if p < 0 || p >= s.len() {
        s.len() as int
    } else if is_delimiter(s[p]) {
        p
    } else {
        spec_bare_end(s, p + 1)
    }
}

pub proof fn lemma_bare_end_bounds(s: Seq<char>, p: int)
    requires
        0 <= p <= s.len(),
    ensures
        p <= spec_bare_end(s, p) <= s.len(),
    decreases s.len() - p,
{
    if p < s.len() && !is_delimiter(s[p]) {
        lemma_bare_end_bounds(s, p + 1);
    }
}

fn find_char_from(s: &str, c: char, from: usize) -> (r: Option<usize>)
    requires
        from <= s@.len(),
    ensures
        match r {
            Some(q) => spec_find_char(s@, c, from as int) == Some(q as int),
            None => spec_find_char(s@, c, from as int) is None,
        },
{
    let n = s.unicode_len();
    let mut p = from;
    while p < n
        invariant
            from <= p <= n,
            n == s@.len(),
            spec_find_char(s@, c, from as int) == spec_find_char(s@, c, p as int),
        decreases n - p,
    {
        if s.get_char(p) == c {
            return Some(p);
        }
        p = p + 1;
    }
    None
}

fn bare_end_from(s: &str, from: usize) -> (r: usize)
    requires
        from <= s@.len(),
    ensures
        r == spec_bare_end(s@, from as int),
        from <= r <= s@.len(),
{
    let n = s.unicode_len();
    let mut p = from;
    while p < n
        invariant
            from <= p <= n,
            n == s@.len(),
            spec_bare_end(s@, from as int) == spec_bare_end(s@, p as int),
        decreases n - p,
    {
        if exec_is_delimiter(s.get_char(p)) {
            return p;
        }
        p = p + 1;
    }
    p
}

// ---------------------------------------------------------------------------
// Statement tokenizer
// ---------------------------------------------------------------------------
/// Splits one statement line into tokens, starting at `p`. A token is `=`, a
/// bracketed feature list `[...]`, a class name `<...>`, or a maximal run of
/// non-delimiter characters. Whitespace separates tokens; `#` starts a
/// comment running to the end of the line. An unclosed `[` or `<`, or a stray
/// `]` or `>`, is an invalid token carrying the rest of the line.
pub open spec fn spec_tokenize_from(s: Seq<char>, p: int) -> Result<
    Seq<Seq<char>>,
    PhlParseErrorView,
>
    decreases s.len() - p,
    via spec_tokenize_from_decreases
{
    if p < 0 || p >= s.len() {
        Ok(Seq::empty())
    } else {
        let c = s[p];
        if is_space(c) {
            spec_tokenize_from(s, p + 1)
        } else if c == '#' {
            Ok(Seq::empty())
        } else if c == '=' {
            match spec_tokenize_from(s, p + 1) {
                Ok(ts) => Ok(seq![seq!['=']] + ts),
                Err(e) => Err(e),
            }
        } else if c == '[' || c == '<' {
            let close = if c == '[' {
                ']'
            } else {
                '>'
            };
            match spec_find_char(s, close, p + 1) {
                Some(q) => match spec_tokenize_from(s, q + 1) {
                    Ok(ts) => Ok(seq![s.subrange(p, q + 1)] + ts),
                    Err(e) => Err(e),
                },
                None => Err(PhlParseErrorView::InvalidToken(s.subrange(p, s.len() as int))),
            }
        } else if c == ']' || c == '>' {
            Err(PhlParseErrorView::InvalidToken(s.subrange(p, s.len() as int)))
        } else {
            let q = spec_bare_end(s, p + 1);
            match spec_tokenize_from(s, q) {
                Ok(ts) => Ok(seq![s.subrange(p, q)] + ts),
                Err(e) => Err(e),
            }
        }
    }
}

#[via_fn]
proof fn spec_tokenize_from_decreases(s: Seq<char>, p: int) {
    if 0 <= p < s.len() {
        let c = s[p];
        if c == '[' || c == '<' {
            let close = if c == '[' {
                ']'
            } else {
                '>'
            };
            if spec_find_char(s, close, p + 1) is Some {
                lemma_find_char_bounds(s, close, p + 1);
            }
        } else if !is_space(c) && c != '#' && c != '=' && c != ']' && c != '>' {
            lemma_bare_end_bounds(s, p + 1);
        }
    }
}

/// The token sequence of one whole statement line.
pub open spec fn spec_tokenize(s: Seq<char>) -> Result<Seq<Seq<char>>, PhlParseErrorView> {
    spec_tokenize_from(s, 0)
}

/// Every token a line splits into holds at least one character.
pub proof fn lemma_tokens_nonempty(s: Seq<char>, p: int)
    requires
        spec_tokenize_from(s, p) is Ok,
    ensures
        forall|k: int|
            0 <= k < spec_tokenize_from(s, p)->Ok_0.len() ==> (
            #[trigger] spec_tokenize_from(s, p)->Ok_0[k]).len() > 0,
    decreases s.len() - p,
{
    if 0 <= p < s.len() {
        let c = s[p];
        if is_space(c) {
            lemma_tokens_nonempty(s, p + 1);
        } else if c == '#' {
        } else if c == '=' {
            lemma_tokens_nonempty(s, p + 1);
        } else if c == '[' || c == '<' {
            let close = if c == '[' {
                ']'
            } else {
                '>'
            };
            if let Some(q) = spec_find_char(s, close, p + 1) {
                lemma_find_char_bounds(s, close, p + 1);
                lemma_tokens_nonempty(s, q + 1);
            }
        } else if c == ']' || c == '>' {
        } else {
            let q = spec_bare_end(s, p + 1);
            lemma_bare_end_bounds(s, p + 1);
            lemma_tokens_nonempty(s, q);
        }
    }
}

/// Scanning for `c` at or after `p` finds exactly the first occurrence.
pub proof fn lemma_find_char_exact(s: Seq<char>, c: char, p: int, q: int)
    requires
        0 <= p <= q < s.len(),
        s[q] == c,
        forall|k: int| p <= k < q ==> s[k] != c,
    ensures
        spec_find_char(s, c, p) == Some(q),
    decreases q - p,
{
    if p < q {
        lemma_find_char_exact(s, c, p + 1, q);
    }
}

/// A bare token scan from `p` ends exactly at the first delimiter `q`.
pub proof fn lemma_bare_end_exact(s: Seq<char>, p: int, q: int)
    requires
        0 <= p <= q <= s.len(),
        forall|k: int| p <= k < q ==> !is_delimiter(s[k]),
        q < s.len() ==> is_delimiter(s[q]),
    ensures
        spec_bare_end(s, p) == q,
    decreases q - p,
{
    if p < q {
        lemma_bare_end_exact(s, p + 1, q);
    }
}

/// A space scan from `p` ends exactly at the first non-space `q`.
pub proof fn lemma_skip_spaces_exact(s: Seq<char>, p: int, q: int)
    requires
        0 <= p <= q <= s.len(),
        forall|k: int| p <= k < q ==> is_space(s[k]),
        q < s.len() ==> !is_space(s[q]),
    ensures
        spec_skip_spaces(s, p) == q,
    decreases q - p,
{
    if p < q {
        lemma_skip_spaces_exact(s, p + 1, q);
    }
}

/// A name scan from `p` ends exactly at the first non-name character `q`.
pub proof fn lemma_name_end_exact(s: Seq<char>, p: int, q: int)
    requires
        0 <= p <= q <= s.len(),
        forall|k: int| p <= k < q ==> is_name_char(s[k]),
        q < s.len() ==> !is_name_char(s[q]),
    ensures
        spec_name_end(s, p) == q,
    decreases q - p,
{
    if p < q {
        lemma_name_end_exact(s, p + 1, q);
    }
}

/// A text whose first and last characters are non-space trims to itself.
pub proof fn lemma_trim_identity(s: Seq<char>)
    requires
        s.len() > 0,
        !is_space(s[0]),
        !is_space(s[s.len() - 1]),
    ensures
        spec_trim(s) == s,
{
    assert(spec_trim_hi(s) == s.len());
    assert(s.subrange(0, s.len() as int) =~= s);
    assert(spec_skip_spaces(s, 0) == 0);
    assert(spec_trim(s) =~= s);
}

/// Splits one statement line into its tokens, dropping whitespace and the
/// comment tail, per [`spec_tokenize`].
pub fn tokenize(statement: &str) -> (r: Result<Vec<String>, PhlParseError>)
    ensures
        match spec_tokenize(statement@) {
            Ok(ts) => r matches Ok(v) && v.deep_view() == ts,
            Err(e) => r matches Err(x) && x@ == e,
        },
{
    let n = statement.unicode_len();
    let mut tokens: Vec<String> = Vec::new();
    let mut p: usize = 0;
    loop
        invariant
            p <= n,
            n == statement@.len(),
            spec_tokenize(statement@) == match spec_tokenize_from(statement@, p as int) {
                Ok(ts) => Ok(tokens.deep_view() + ts),
                Err(e) => Err::<Seq<Seq<char>>, PhlParseErrorView>(e),
            },
        decreases n - p,
    {
        let ghost sv = statement@;
        if p >= n {
            proof {
                assert(tokens.deep_view() + Seq::<Seq<char>>::empty() =~= tokens.deep_view());
            }
            return Ok(tokens);
        }
        let c = statement.get_char(p);
        if exec_is_space(c) {
            p = p + 1;
        } else if c == '#' {
            proof {
                assert(tokens.deep_view() + Seq::<Seq<char>>::empty() =~= tokens.deep_view());
            }
            return Ok(tokens);
        } else if c == '=' {
            let ghost prev = tokens.deep_view();
            tokens.push(String::from_str("="));
            p = p + 1;
            proof {
                reveal_strlit("=");
                assert(seq!['='] =~= "="@);
                assert(tokens.deep_view() =~= prev.push("="@));
                assert(forall|ts: Seq<Seq<char>>|
                    prev + (seq![seq!['=']] + ts) =~= tokens.deep_view() + ts);
            }
        } else if c == '[' || c == '<' {
            let close = if c == '[' {
                ']'
            } else {
                '>'
            };
            match find_char_from(statement, close, p + 1) {
                Some(q) => {
                    proof {
                        lemma_find_char_bounds(sv, close, p + 1 as int);
                    }
                    let tok = statement.substring_char(p, q + 1).to_owned();
                    let ghost prev = tokens.deep_view();
                    tokens.push(tok);
                    proof {
                        assert(tokens.deep_view() =~= prev.push(sv.subrange(p as int, q + 1)));
                        assert(forall|ts: Seq<Seq<char>>|
                            prev + (seq![sv.subrange(p as int, q + 1)] + ts) =~= tokens.deep_view()
                                + ts);
                    }
                    p = q + 1;
                },
                None => {
                    let rest = statement.substring_char(p, n).to_owned();
                    return Err(PhlParseError::InvalidTokenError(rest));
                },
            }
        } else if c == ']' || c == '>' {
            let rest = statement.substring_char(p, n).to_owned();
            return Err(PhlParseError::InvalidTokenError(rest));
        } else {
            let q = bare_end_from(statement, p + 1);
            let tok = statement.substring_char(p, q).to_owned();
            let ghost prev = tokens.deep_view();
            tokens.push(tok);
            proof {
                assert(tokens.deep_view() =~= prev.push(sv.subrange(p as int, q as int)));
                assert(forall|ts: Seq<Seq<char>>|
                    prev + (seq![sv.subrange(p as int, q as int)] + ts) =~= tokens.deep_view()
                        + ts);
            }
            p = q;
        }
    }
}

// ---------------------------------------------------------------------------
// Feature lists
// ---------------------------------------------------------------------------
/// How many trailing whitespace characters to cut: the length of the longest
/// prefix of `s` that ends in a non-space character.
pub open spec fn spec_trim_hi(s: Seq<char>) -> int
    decreases s.len(),
{
    if s.len() == 0 {
        0
    } else if is_space(s[s.len() - 1]) {
        spec_trim_hi(s.drop_last())
    } else {
        s.len() as int
    }
}

pub proof fn lemma_trim_hi_bounds(s: Seq<char>)
    ensures
        0 <= spec_trim_hi(s) <= s.len(),
        spec_trim_hi(s) > 0 ==> !is_space(s[spec_trim_hi(s) - 1]),
    decreases s.len(),
{
    if s.len() > 0 && is_space(s[s.len() - 1]) {
        lemma_trim_hi_bounds(s.drop_last());
    }
}

/// The least index at or after `p` holding a non-space character, or the length.
pub open spec fn spec_skip_spaces(s: Seq<char>, p: int) -> int
    decreases s.len() - p,
{
    if p < 0 || p >= s.len() {
        s.len() as int
    } else if is_space(s[p]) {
        spec_skip_spaces(s, p + 1)
    } else {
        p
    }
}

pub proof fn lemma_skip_spaces_bounds(s: Seq<char>, p: int)
    requires
        0 <= p <= s.len(),
    ensures
        p <= spec_skip_spaces(s, p) <= s.len(),
        spec_skip_spaces(s, p) < s.len() ==> !is_space(s[spec_skip_spaces(s, p)]),
    decreases s.len() - p,
{
    if p < s.len() && is_space(s[p]) {
        lemma_skip_spaces_bounds(s, p + 1);
    }
}

/// `s` with surrounding whitespace removed.
pub open spec fn spec_trim(s: Seq<char>) -> Seq<char> {
    let kept = s.subrange(0, spec_trim_hi(s));
    kept.subrange(spec_skip_spaces(kept, 0), kept.len() as int)
}

/// The body of a feature list: the text with one leading `[` and one
/// trailing `]` removed where present.
pub open spec fn spec_list_body(t: Seq<char>) -> Seq<char> {
    let a = if t.len() > 0 && t[0] == '[' {
        t.subrange(1, t.len() as int)
    } else {
        t
    };
    if a.len() > 0 && a[a.len() - 1] == ']' {
        a.subrange(0, a.len() - 1)
    } else {
        a
    }
}

/// The least index at or after `p` holding a character that cannot continue a
/// feature name, or the length.
pub open spec fn spec_name_end(s: Seq<char>, p: int) -> int
    decreases s.len() - p,
{
    if p < 0 || p >= s.len() {
        s.len() as int
    } else if is_name_char(s[p]) {
        spec_name_end(s, p + 1)
    } else {
        p
    }
}

pub proof fn lemma_name_end_bounds(s: Seq<char>, p: int)
    requires
        0 <= p <= s.len(),
    ensures
        p <= spec_name_end(s, p) <= s.len(),
    decreases s.len() - p,
{
    if p < s.len() && is_name_char(s[p]) {
        lemma_name_end_bounds(s, p + 1);
    }
}

/// The canonical feature value written by a run of one or two value
/// characters, if the run is one of the six canonical forms.
pub open spec fn spec_value_of(vs: Seq<char>) -> Option<FeatureValue> {
    if vs.len() == 1 {
        if vs[0] == '+' {
            Some(FeatureValue::Plus)
        } else if vs[0] == '-' {
            Some(FeatureValue::Minus)
        } else if vs[0] == '0' {
            Some(FeatureValue::Zero)
        } else if vs[0] == '?' {
            Some(FeatureValue::Unspecified)
        } else {
            None
        }
    } else if vs.len() == 2 {
        if vs[0] == '+' && vs[1] == '-' {
            Some(FeatureValue::PlusMinus)
        } else if vs[0] == '-' && vs[1] == '+' {
            Some(FeatureValue::MinusPlus)
        } else {
            None
        }
    } else {
        None
    }
}

/// Reading back a canonical value text gives the value itself.
pub proof fn lemma_value_of_text(v: FeatureValue)
    ensures
        spec_value_of(v.spec_text()) == Some(v),
        1 <= v.spec_text().len() <= 2,
        forall|k: int| 0 <= k < v.spec_text().len() ==> is_value_char(#[trigger] v.spec_text()[k]),
{
    reveal_strlit("+");
    reveal_strlit("-");
    reveal_strlit("0");
    reveal_strlit("+-");
    reveal_strlit("-+");
    reveal_strlit("?");
}

/// Parses the items of a feature-list body starting at `p`. Items are
/// `value name` pairs separated by commas or whitespace; the value is a run
/// of one or two value characters and must be one of the canonical forms;
/// the name follows, after optional spaces, as a letter-led identifier.
/// `t` is the whole trimmed list, reported by the errors.
pub open spec fn spec_parse_items(u: Seq<char>, p: int, t: Seq<char>) -> Result<
    Seq<FeatureView>,
    PhlParseErrorView,
>
    decreases u.len() - p,
    via spec_parse_items_decreases
{
    if p < 0 || p >= u.len() {
        Ok(Seq::empty())
    } else if is_space(u[p]) || u[p] == ',' {
        spec_parse_items(u, p + 1, t)
    } else if is_value_char(u[p]) {
        let vend = if p + 1 < u.len() && is_value_char(u[p + 1]) {
            p + 2
        } else {
            p + 1
        };
        match spec_value_of(u.subrange(p, vend)) {
            None => Err(PhlParseErrorView::InvalidFeatureValue(t)),
            Some(v) => {
                let pn = spec_skip_spaces(u, vend);
                if pn >= u.len() || !is_name_start(u[pn]) {
                    Err(PhlParseErrorView::InvalidFeatureName(t))
                } else {
                    let ne = spec_name_end(u, pn + 1);
                    match spec_parse_items(u, ne, t) {
                        Ok(fs) => Ok(
                            seq![FeatureView { value: v, name: u.subrange(pn, ne) }] + fs,
                        ),
                        Err(e) => Err(e),
                    }
                }
            },
        }
    } else if is_name_start(u[p]) {
        Err(PhlParseErrorView::InvalidFeatureValue(t))
    } else {
        Err(PhlParseErrorView::InvalidToken(u.subrange(p, u.len() as int)))
    }
}

#[via_fn]
proof fn spec_parse_items_decreases(u: Seq<char>, p: int, t: Seq<char>) {
    if 0 <= p < u.len() && !(is_space(u[p]) || u[p] == ',') && is_value_char(u[p]) {
        let vend = if p + 1 < u.len() && is_value_char(u[p + 1]) {
            p + 2
        } else {
            p + 1
        };
        lemma_skip_spaces_bounds(u, vend);
        let pn = spec_skip_spaces(u, vend);
        if pn < u.len() {
            lemma_name_end_bounds(u, pn + 1);
        }
    }
}

/// The feature list written by `s`: empty when `s` is blank, else the parsed
/// items of the bracket-stripped body of the trimmed text.
pub open spec fn spec_parse_features(s: Seq<char>) -> Result<Seq<FeatureView>, PhlParseErrorView> {
    let t = spec_trim(s);
    if t.len() == 0 {
        Ok(Seq::empty())
    } else {
        spec_parse_items(spec_list_body(t), 0, t)
    }
}

fn exec_skip_spaces(s: &str, from: usize) -> (r: usize)
    requires
        from <= s@.len(),
    ensures
        r == spec_skip_spaces(s@, from as int),
        from <= r <= s@.len(),
{
    let n = s.unicode_len();
    let mut p = from;
    while p < n
        invariant
            from <= p <= n,
            n == s@.len(),
            spec_skip_spaces(s@, from as int) == spec_skip_spaces(s@, p as int),
        decreases n - p,
    {
        if !exec_is_space(s.get_char(p)) {
            return p;
        }
        p = p + 1;
    }
    p
}

fn exec_name_end(s: &str, from: usize) -> (r: usize)
    requires
        from <= s@.len(),
    ensures
        r == spec_name_end(s@, from as int),
        from <= r <= s@.len(),
{
    let n = s.unicode_len();
    let mut p = from;
    while p < n
        invariant
            from <= p <= n,
            n == s@.len(),
            spec_name_end(s@, from as int) == spec_name_end(s@, p as int),
        decreases n - p,
    {
        if !exec_is_name_char(s.get_char(p)) {
            return p;
        }
        p = p + 1;
    }
    p
}

/// `s` with surrounding whitespace removed, as a slice of `s`.
fn exec_trim<'a>(s: &'a str) -> (r: &'a str)
    ensures
        r@ == spec_trim(s@),
{
    let n = s.unicode_len();
    proof {
        assert(s@.subrange(0, n as int) =~= s@);
    }
    let mut hi = n;
    while hi > 0 && exec_is_space(s.get_char(hi - 1))
        invariant
            hi <= n,
            n == s@.len(),
            spec_trim_hi(s@) == spec_trim_hi(s@.subrange(0, hi as int)),
        decreases hi,
    {
        proof {
            assert(s@.subrange(0, hi as int).drop_last() =~= s@.subrange(0, hi - 1));
        }
        hi = hi - 1;
    }
    proof {
        assert(s@.subrange(0, n as int) =~= s@);
        if hi > 0 {
            assert(spec_trim_hi(s@.subrange(0, hi as int)) == hi);
        }
    }
    let ghost kept = s@.subrange(0, hi as int);
    let mut lo: usize = 0;
    while lo < hi && exec_is_space(s.get_char(lo))
        invariant
            lo <= hi <= n,
            n == s@.len(),
            kept == s@.subrange(0, hi as int),
            spec_skip_spaces(kept, 0) == spec_skip_spaces(kept, lo as int),
        decreases hi - lo,
    {
        lo = lo + 1;
    }
    proof {
        assert(spec_skip_spaces(kept, lo as int) == lo);
        assert(s@.subrange(lo as int, hi as int) =~= kept.subrange(
            spec_skip_spaces(kept, 0),
            kept.len() as int,
        ));
    }
    s.substring_char(lo, hi)
}

fn value_of_len(s: &str, p: usize, vend: usize) -> (r: Option<FeatureValue>)
    requires
        p < vend <= s@.len(),
        vend - p <= 2,
    ensures
        r == spec_value_of(s@.subrange(p as int, vend as int)),
{
    let c0 = s.get_char(p);
    if vend - p == 1 {
        if c0 == '+' {
            Some(FeatureValue::Plus)
        } else if c0 == '-' {
            Some(FeatureValue::Minus)
        } else if c0 == '0' {
            Some(FeatureValue::Zero)
        } else if c0 == '?' {
            Some(FeatureValue::Unspecified)
        } else {
            None
        }
    } else {
        let c1 = s.get_char(p + 1);
        if c0 == '+' && c1 == '-' {
            Some(FeatureValue::PlusMinus)
        } else if c0 == '-' && c1 == '+' {
            Some(FeatureValue::MinusPlus)
        } else {
            None
        }
    }
}

/// Parses a bracketed feature list, per [`spec_parse_features`].
pub fn parse_features(feature_set_string: &str) -> (r: Result<Vec<Feature>, PhlParseError>)
    ensures
        match spec_parse_features(feature_set_string@) {
            Ok(fs) => r matches Ok(v) && v.deep_view() == fs,
            Err(e) => r matches Err(x) && x@ == e,
        },
{
    let trimmed = exec_trim(feature_set_string);
    let tn = trimmed.unicode_len();
    if tn == 0 {
        let out: Vec<Feature> = Vec::new();
        proof {
            assert(out.deep_view() =~= Seq::<FeatureView>::empty());
        }
        return Ok(out);
    }
    let start: usize = if trimmed.get_char(0) == '[' {
        1
    } else {
        0
    };
    let end: usize = if tn > start && trimmed.get_char(tn - 1) == ']' {
        tn - 1
    } else {
        tn
    };
    let body = trimmed.substring_char(start, end);
    proof {
        if start == 1 {
            assert(trimmed@.subrange(1, tn as int).len() == tn - 1);
            if end == tn - 1 {
                assert(trimmed@.subrange(start as int, end as int) =~= trimmed@.subrange(
                    1,
                    tn as int,
                ).subrange(0, tn - 2));
            } else {
                assert(trimmed@.subrange(start as int, end as int) =~= trimmed@.subrange(
                    1,
                    tn as int,
                ));
            }
        } else {
            if end == tn - 1 {
                assert(trimmed@.subrange(start as int, end as int) =~= trimmed@.subrange(
                    0,
                    tn - 1,
                ));
            } else {
                assert(trimmed@.subrange(start as int, end as int) =~= trimmed@);
            }
        }
        assert(body@ == spec_list_body(trimmed@));
    }
    let ghost uv = body@;
    let ghost tv = trimmed@;
    let un = body.unicode_len();
    let mut feats: Vec<Feature> = Vec::new();
    let mut p: usize = 0;
    loop
        invariant
            p <= un,
            un == uv.len(),
            uv == body@,
            tv == trimmed@,
            tn == tv.len(),
            tn > 0,
            spec_parse_features(feature_set_string@) == match spec_parse_items(uv, p as int, tv) {
                Ok(fs) => Ok(feats.deep_view() + fs),
                Err(e) => Err::<Seq<FeatureView>, PhlParseErrorView>(e),
            },
        decreases un - p,
    {
        if p >= un {
            proof {
                assert(feats.deep_view() + Seq::<FeatureView>::empty() =~= feats.deep_view());
            }
            return Ok(feats);
        }
        let c = body.get_char(p);
        if exec_is_space(c) || c == ',' {
            p = p + 1;
        } else if exec_is_value_char(c) {
            let vend = if p + 1 < un && exec_is_value_char(body.get_char(p + 1)) {
                p + 2
            } else {
                p + 1
            };
            match value_of_len(body, p, vend) {
                None => {
                    return Err(PhlParseError::InvalidFeatureValueError(trimmed.to_owned()));
                },
                Some(v) => {
                    let pn = exec_skip_spaces(body, vend);
                    if pn >= un || !exec_is_name_start(body.get_char(pn)) {
                        return Err(PhlParseError::InvalidFeatureNameError(trimmed.to_owned()));
                    }
                    let ne = exec_name_end(body, pn + 1);
                    let name = body.substring_char(pn, ne).to_owned();
                    let ghost prev = feats.deep_view();
                    let feat = Feature { value: v, name };
                    let ghost fv = feat@;
                    feats.push(feat);
                    proof {
                        assert(feats.deep_view() =~= prev.push(fv));
                        assert(forall|fs: Seq<FeatureView>|
                            prev + (seq![fv] + fs) =~= feats.deep_view() + fs);
                    }
                    p = ne;
                },
            }
        } else if exec_is_name_start(c) {
            return Err(PhlParseError::InvalidFeatureValueError(trimmed.to_owned()));
        } else {
            let rest = body.substring_char(p, un).to_owned();
            return Err(PhlParseError::InvalidTokenError(rest));
        }
    }
}

// ---------------------------------------------------------------------------
// Definitions
// ---------------------------------------------------------------------------
/// One instruction of a definition: apply another symbol's resolved features,
/// or apply an explicit feature list.
#[derive(Debug, Clone, PartialEq)]
pub enum DefinitionItem {
    Sym(Symbol),
    Feats(Vec<Feature>),
}

/// The mathematical shape of a [`DefinitionItem`].
pub enum DefinitionItemView {
    Sym(Seq<char>),
    Feats(Seq<FeatureView>),
}

impl View for DefinitionItem {
    type V = DefinitionItemView;

    open spec fn view(&self) -> DefinitionItemView {
        match self {
            DefinitionItem::Sym(s) => DefinitionItemView::Sym(s@),
            DefinitionItem::Feats(fs) => DefinitionItemView::Feats(fs.deep_view()),
        }
    }
}

impl DeepView for DefinitionItem {
    type V = DefinitionItemView;

    open spec fn deep_view(&self) -> DefinitionItemView {
        self@
    }
}

impl DefinitionItem {
    /// The explicit feature list of the instruction, if it is one.
    pub fn feat(&self) -> (r: Option<Vec<Feature>>)
        ensures
            match self@ {
                DefinitionItemView::Sym(_) => r is None,
                DefinitionItemView::Feats(fs) => r matches Some(v) && v.deep_view() == fs,
            },
    {
        match self {
            DefinitionItem::Sym(_) => None,
            DefinitionItem::Feats(fs) => Some(crate::features::duplicate_features(fs)),
        }
    }
}

/// The parsed-but-unresolved form of one statement: a symbol and the ordered
/// instructions that define its feature vector.
#[derive(Debug, Clone, PartialEq)]
pub struct Definition {
    pub symbol: Symbol,
    pub items: Vec<DefinitionItem>,
}

/// The mathematical shape of a [`Definition`].
pub struct DefinitionView {
    pub symbol: Seq<char>,
    pub items: Seq<DefinitionItemView>,
}

impl View for Definition {
    type V = DefinitionView;

    open spec fn view(&self) -> DefinitionView {
        DefinitionView { symbol: self.symbol@, items: self.items.deep_view() }
    }
}

impl DeepView for Definition {
    type V = DefinitionView;

    open spec fn deep_view(&self) -> DefinitionView {
        self@
    }
}

/// Classifies the tokens after the `=` of a statement: the exact token `=`
/// is invalid, a `[`-led token is an explicit feature list, anything else
/// refers to another symbol.
pub open spec fn spec_items_of_tokens(ts: Seq<Seq<char>>, k: int) -> Result<
    Seq<DefinitionItemView>,
    PhlParseErrorView,
>
    decreases ts.len() - k,
{
    if k < 0 || k >= ts.len() {
        Ok(Seq::empty())
    } else {
        let t = ts[k];
        if t == "="@ {
            Err(PhlParseErrorView::InvalidToken(t))
        } else if t.len() > 0 && t[0] == '[' {
            match spec_parse_features(t) {
                Ok(fs) => match spec_items_of_tokens(ts, k + 1) {
                    Ok(items) => Ok(seq![DefinitionItemView::Feats(fs)] + items),
                    Err(e) => Err(e),
                },
                Err(e) => Err(e),
            }
        } else {
            match spec_items_of_tokens(ts, k + 1) {
                Ok(items) => Ok(seq![DefinitionItemView::Sym(t)] + items),
                Err(e) => Err(e),
            }
        }
    }
}

/// The definition written by one statement line: none for a blank or
/// comment-only line; a syntax error unless the line has at least three
/// tokens with `=` second; else the first token as the defined symbol and
/// the remaining tokens as its instructions.
pub open spec fn spec_tokenize_definition(s: Seq<char>) -> Result<
    Option<DefinitionView>,
    PhlParseErrorView,
> {
    match spec_tokenize(s) {
        Err(e) => Err(e),
        Ok(ts) => if ts.len() == 0 {
            Ok(None)
        } else if ts.len() < 3 || ts[1] != "="@ {
            Err(PhlParseErrorView::Syntax(s))
        } else {
            match spec_items_of_tokens(ts, 2) {
                Ok(items) => Ok(Some(DefinitionView { symbol: ts[0], items })),
                Err(e) => Err(e),
            }
        },
    }
}

/// Parses one statement line, per [`spec_tokenize_definition`].
pub fn tokenize_definition(s: &str) -> (r: Result<Option<Definition>, PhlParseError>)
    ensures
        match spec_tokenize_definition(s@) {
            Ok(None) => r matches Ok(None),
            Ok(Some(d)) => r matches Ok(od) && od matches Some(x) && x@ == d,
            Err(e) => r matches Err(x) && x@ == e,
        },
{
    let tokens = match tokenize(s) {
        Ok(ts) => ts,
        Err(e) => {
            return Err(e);
        },
    };
    let ghost tsv = tokens.deep_view();
    if tokens.len() == 0 {
        return Ok(None);
    }
    if tokens.len() < 3 || !str_eq(tokens[1].as_str(), "=") {
        return Err(PhlParseError::SyntaxError(s.to_owned()));
    }
    let symbol = Symbol(tokens[0].clone());
    let mut items: Vec<DefinitionItem> = Vec::new();
    let mut k: usize = 2;
    loop
        invariant
            2 <= k <= tokens.len(),
            tsv == tokens.deep_view(),
            tsv.len() == tokens.len(),
            spec_tokenize(s@) == Ok::<Seq<Seq<char>>, PhlParseErrorView>(tsv),
            3 <= tsv.len(),
            tsv[1] == "="@,
            symbol@ == tsv[0],
            spec_items_of_tokens(tsv, 2) == match spec_items_of_tokens(tsv, k as int) {
                Ok(rest) => Ok(items.deep_view() + rest),
                Err(e) => Err::<Seq<DefinitionItemView>, PhlParseErrorView>(e),
            },
        decreases tokens.len() - k,
    {
        if k >= tokens.len() {
            proof {
                assert(items.deep_view() + Seq::<DefinitionItemView>::empty()
                    =~= items.deep_view());
            }
            return Ok(Some(Definition { symbol, items }));
        }
        let t = &tokens[k];
        if str_eq(t.as_str(), "=") {
            return Err(PhlParseError::InvalidTokenError(t.clone()));
        }
        let tn = t.as_str().unicode_len();
        let item: DefinitionItem = if tn > 0 && t.as_str().get_char(0) == '[' {
            match parse_features(t.as_str()) {
                Ok(fs) => DefinitionItem::Feats(fs),
                Err(e) => {
                    return Err(e);
                },
            }
        } else {
            DefinitionItem::Sym(Symbol(t.clone()))
        };
        let ghost prev = items.deep_view();
        let ghost iv = item@;
        items.push(item);
        proof {
            assert(items.deep_view() =~= prev.push(iv));
            assert(forall|rest: Seq<DefinitionItemView>|
                prev + (seq![iv] + rest) =~= items.deep_view() + rest);
        }
        k = k + 1;
    }
}

/// The definitions written by a sequence of lines, from the `k`-th line on:
/// blank lines contribute nothing, and the first failing line's error is the
/// whole result.
pub open spec fn spec_parse_lines(ls: Seq<Seq<char>>, k: int) -> Result<
    Seq<DefinitionView>,
    PhlParseErrorView,
>
    decreases ls.len() - k,
{
    if k < 0 || k >= ls.len() {
        Ok(Seq::empty())
    } else {
        match spec_tokenize_definition(ls[k]) {
            Err(e) => Err(e),
            Ok(None) => spec_parse_lines(ls, k + 1),
            Ok(Some(d)) => match spec_parse_lines(ls, k + 1) {
                Ok(ds) => Ok(seq![d] + ds),
                Err(e) => Err(e),
            },
        }
    }
}

/// Parses whole feature-system source text, one statement per line, in
/// source order; the first error anywhere aborts the parse.
pub fn parse_lines(lines: &Vec<&str>) -> (r: Result<Vec<Definition>, PhlParseError>)
    ensures
        match spec_parse_lines(lines.deep_view(), 0) {
            Ok(ds) => r matches Ok(v) && v.deep_view() == ds,
            Err(e) => r matches Err(x) && x@ == e,
        },
{
    let ghost lsv = lines.deep_view();
    let mut defs: Vec<Definition> = Vec::new();
    let mut k: usize = 0;
    loop
        invariant
            k <= lines.len(),
            lsv == lines.deep_view(),
            lsv.len() == lines.len(),
            spec_parse_lines(lsv, 0) == match spec_parse_lines(lsv, k as int) {
                Ok(rest) => Ok(defs.deep_view() + rest),
                Err(e) => Err::<Seq<DefinitionView>, PhlParseErrorView>(e),
            },
        decreases lines.len() - k,
    {
        if k >= lines.len() {
            proof {
                assert(defs.deep_view() + Seq::<DefinitionView>::empty() =~= defs.deep_view());
            }
            return Ok(defs);
        }
        match tokenize_definition(lines[k]) {
            Err(e) => {
                return Err(e);
            },
            Ok(None) => {},
            Ok(Some(d)) => {
                let ghost prev = defs.deep_view();
                let ghost dv = d@;
                defs.push(d);
                proof {
                    assert(defs.deep_view() =~= prev.push(dv));
                    assert(forall|rest: Seq<DefinitionView>|
                        prev + (seq![dv] + rest) =~= defs.deep_view() + rest);
                }
            },
        }
        k = k + 1;
    }
}

} // verus!
