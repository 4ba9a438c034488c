//! Text model and the single-line machinery: lines and line collections,
//! substring search, and the nearest-index lookup used by search stepping.

use vstd::prelude::*;

verus! {

use vstd::string::StrSliceExecFns;

/// One record of text, without its trailing newline.
pub struct Line {
    pub buffer: String,
}

impl Line {
    /// Wraps a borrowed buffer into an owned line.
    pub fn from(buffer: &str) -> (l: Line)
        ensures
            l.buffer@ == buffer@,
    {
        Line { buffer: buffer.to_owned() }
    }
}

/// A display attribute applied to a run of text.
#[derive(Copy, Clone, PartialEq, Eq, Structural, Debug)]
pub enum Attribute {
    Normal,
    Inverse,
    Red,
    Blue,
}

/// Whether a pattern source compiles as a regular expression.
pub uninterp spec fn pattern_valid(pattern: Seq<char>) -> bool;

/// The text of the last regex match of `pattern` anywhere in `text`, when
/// there is one.
pub uninterp spec fn last_pattern_match(text: Seq<char>, pattern: Seq<char>) -> Option<Seq<char>>;

/// Whether `pattern` matches anywhere in `text`.
pub uninterp spec fn pattern_matches(pattern: Seq<char>, text: Seq<char>) -> bool;

/// Relies on regex::Regex::new: whether a pattern source compiles is a
/// function of the source alone.
#[verifier::external_body]
pub(crate) fn pattern_compiles(pattern: &str) -> (r: bool)
    ensures
        r == pattern_valid(pattern@),
{
    regex::Regex::new(pattern).is_ok()
}

/// Relies on regex::Regex::new and regex::Regex::find_iter: the successive
/// non-overlapping matches are a function of haystack and pattern alone, and
/// each match's text is a substring of the haystack. Returns the text of the
/// last match, or nothing when there is no match or the last match is empty.
#[verifier::external_body]
pub fn match_against_pattern(line_buffer: &str, pattern: &str) -> (r: Option<String>)
    requires
        pattern_valid(pattern@),
    ensures
        r is Some <==> last_pattern_match(line_buffer@, pattern@) is Some,
        (r matches Option::Some(s) ==> last_pattern_match(line_buffer@, pattern@) == Option::Some(
            s@,
        )),
        (r matches Option::Some(s) ==> s@.len() >= 1 && occurs(line_buffer@, s@)),
{
    let re = regex::Regex::new(pattern).unwrap();
    match re.find_iter(line_buffer).last() {
        Some(m) if m.as_str().len() >= 1 => Some(m.as_str().to_string()),
        _ => None,
    }
}

/// Relies on regex::Regex::new and regex::Regex::is_match: whether the
/// pattern matches anywhere in the text is a function of pattern and text
/// alone.
#[verifier::external_body]
pub(crate) fn regex_line_matches(pattern: &str, text: &str) -> (r: bool)
    requires
        pattern_valid(pattern@),
    ensures
        r == pattern_matches(pattern@, text@),
{
    regex::Regex::new(pattern).unwrap().is_match(text)
}

/// Absolute distance between two line indices.
pub open spec fn dist(a: usize, b: usize) -> int {
    if a >= b {
        a - b
    } else {
        b - a
    }
}

/// `needle` occurs in `hay` starting at position `i`.
pub open spec fn occurs_at(hay: Seq<char>, needle: Seq<char>, i: int) -> bool {
    &&& 0 <= i
    &&& i + needle.len() <= hay.len()
    &&& hay.subrange(i, i + needle.len() as int) == needle
}

/// `needle` occurs somewhere in `hay`.
pub open spec fn occurs(hay: Seq<char>, needle: Seq<char>) -> bool {
    exists|i: int| occurs_at(hay, needle, i)
}

/// Position of the first occurrence of `needle` at or after position `i`.
pub open spec fn first_occurrence_from(hay: Seq<char>, needle: Seq<char>, i: int) -> Option<int>
    decreases hay.len() - i + 1,
{
    if i < 0 || i + needle.len() > hay.len() {
        Option::None
    } else if hay.subrange(i, i + needle.len() as int) == needle {
        Option::Some(i)
    } else {
        first_occurrence_from(hay, needle, i + 1)
    }
}

/// Position of the first occurrence of `needle` in `hay`.
pub open spec fn first_occurrence(hay: Seq<char>, needle: Seq<char>) -> Option<int> {
    first_occurrence_from(hay, needle, 0)
}

/// What `first_occurrence_from` returns: the least occurrence position at or
/// after `i`, or nothing when no occurrence lies there.
pub proof fn lemma_first_occurrence_from(hay: Seq<char>, needle: Seq<char>, i: int)
    requires
        0 <= i,
    ensures
        (match first_occurrence_from(hay, needle, i) {
            Option::Some(j) => occurs_at(hay, needle, j) && i <= j && forall|k: int|
                i <= k < j ==> !occurs_at(hay, needle, k),
            Option::None => forall|k: int| i <= k ==> !occurs_at(hay, needle, k),
        }),
    decreases hay.len() - i + 1,
{
    if i + needle.len() > hay.len() {
        assert forall|k: int| i <= k implies !occurs_at(hay, needle, k) by {
            assert(k + needle.len() > hay.len());
        }
    } else if hay.subrange(i, i + needle.len() as int) == needle {
    } else {
        lemma_first_occurrence_from(hay, needle, i + 1);
        assert(!occurs_at(hay, needle, i));
    }
}

/// The first occurrence position exists exactly when any occurrence does.
pub proof fn lemma_occurs_first(hay: Seq<char>, needle: Seq<char>)
    ensures
        occurs(hay, needle) <==> first_occurrence(hay, needle) is Some,
{
    lemma_first_occurrence_from(hay, needle, 0);
    if occurs(hay, needle) {
        let i = choose|i: int| occurs_at(hay, needle, i);
        if first_occurrence(hay, needle) is None {
            assert(!occurs_at(hay, needle, i));
        }
    }
}

/// Finds the position, in characters, of the first occurrence of `needle`
/// within `hay`, scanning left to right.
pub fn find_first(hay: &str, needle: &str) -> (r: Option<usize>)
    ensures
        (match r {
            Option::Some(i) => first_occurrence(hay@, needle@) == Option::Some(i as int),
            Option::None => first_occurrence(hay@, needle@) is None,
        }),
{
    let h_len: usize = hay.unicode_len();
    let n_len: usize = needle.unicode_len();
    if n_len > h_len {
        proof {
            lemma_first_occurrence_from(hay@, needle@, 0);
            if first_occurrence(hay@, needle@) is Some {
                let j = first_occurrence(hay@, needle@)->Some_0;
                assert(occurs_at(hay@, needle@, j));
            }
        }
        return Option::None;
    }
    let mut i: usize = 0;
    while i <= h_len - n_len
        invariant
            n_len <= h_len,
            h_len == hay@.len(),
            n_len == needle@.len(),
            0 <= i <= h_len - n_len + 1,
            forall|k: int| 0 <= k < i ==> !occurs_at(hay@, needle@, k),
        decreases h_len - n_len - i + 1,
    {
        let mut j: usize = 0;
        let mut matches_here: bool = true;
        while matches_here && j < n_len
            invariant
                i + n_len <= h_len,
                h_len == hay@.len(),
                n_len == needle@.len(),
                0 <= j <= n_len,
                matches_here ==> forall|k: int| 0 <= k < j ==> hay@[i + k] == needle@[k],
                !matches_here ==> exists|k: int| 0 <= k < n_len && hay@[i + k] != needle@[k],
            decreases n_len - j + (if matches_here { 1int } else { 0int }),
        {
            if hay.get_char(i + j) != needle.get_char(j) {
                matches_here = false;
            } else {
                j = j + 1;
            }
        }
        if matches_here {
            proof {
                assert(hay@.subrange(i as int, i + needle@.len() as int) =~= needle@);
                assert(occurs_at(hay@, needle@, i as int));
                lemma_first_occurrence_from(hay@, needle@, 0);
                match first_occurrence(hay@, needle@) {
                    Option::Some(j) => {
                        if j < i {
                            assert(!occurs_at(hay@, needle@, j));
                        }
                        if j > i {
                            assert(!occurs_at(hay@, needle@, i as int));
                        }
                    },
                    Option::None => {
                        assert(!occurs_at(hay@, needle@, i as int));
                    },
                }
            }
            return Option::Some(i);
        }
        proof {
            assert(!occurs_at(hay@, needle@, i as int)) by {
                if occurs_at(hay@, needle@, i as int) {
                    let k = choose|k: int| 0 <= k < n_len && hay@[i + k] != needle@[k];
                    assert(hay@.subrange(i as int, i + needle@.len() as int)[k] == hay@[i + k]);
                }
            }
        }
        i = i + 1;
    }
    proof {
        lemma_first_occurrence_from(hay@, needle@, 0);
        if first_occurrence(hay@, needle@) is Some {
            let j = first_occurrence(hay@, needle@)->Some_0;
            assert(occurs_at(hay@, needle@, j));
            assert(j + n_len <= h_len);
            assert(!occurs_at(hay@, needle@, j));
        }
    }
    Option::None
}

/// Whether two strings hold the same characters.
pub fn str_eq(a: &str, b: &str) -> (r: bool)
    ensures
        r == (a@ == b@),
{
    let a_len: usize = a.unicode_len();
    let b_len: usize = b.unicode_len();
    if a_len != b_len {
        return false;
    }
    let mut i: usize = 0;
    while i < a_len
        invariant
            a_len == a@.len(),
            b_len == b@.len(),
            a_len == b_len,
            0 <= i <= a_len,
            forall|k: int| 0 <= k < i ==> a@[k] == b@[k],
        decreases a_len - i,
    {
        if a.get_char(i) != b.get_char(i) {
            return false;
        }
        i = i + 1;
    }
    proof {
        assert(a@ =~= b@);
    }
    true
}

/// `v` is a nearest element of `idxs` to `q`: no element lies strictly
/// closer, and no other element at the same distance lies below it.
pub open spec fn is_nearest(idxs: Seq<usize>, q: usize, v: usize) -> bool {
    &&& idxs.contains(v)
    &&& forall|j: int| 0 <= j < idxs.len() ==> dist(v, q) <= dist(#[trigger] idxs[j], q)
    &&& forall|j: int|
        0 <= j < idxs.len() && dist(#[trigger] idxs[j], q) == dist(v, q) ==> v <= idxs[j]
}

/// At most one element of a set of indices is nearest to a query.
pub proof fn lemma_nearest_unique(idxs: Seq<usize>, q: usize, v1: usize, v2: usize)
    requires
        is_nearest(idxs, q, v1),
        is_nearest(idxs, q, v2),
    ensures
        v1 == v2,
{
    let j1 = choose|j: int| 0 <= j < idxs.len() && idxs[j] == v1;
    let j2 = choose|j: int| 0 <= j < idxs.len() && idxs[j] == v2;
    assert(dist(v1, q) <= dist(idxs[j2], q));
    assert(dist(v2, q) <= dist(idxs[j1], q));
}

/// Returns the element of `indexes` with the least absolute difference from
/// `search`; an equally near pair resolves toward the lower element. An empty
/// input yields no result.
pub fn find_closest_index(indexes: &[usize], search: usize) -> (r: Option<usize>)
    ensures
        r is None <==> indexes@.len() == 0,
        (match r {
            Option::Some(v) => is_nearest(indexes@, search, v),
            Option::None => true,
        }),
{
    if indexes.len() == 0 {
        return Option::None;
    }
    let mut best: usize = indexes[0];
    let mut i: usize = 1;
    while i < indexes.len()
        invariant
            1 <= i <= indexes@.len(),
            indexes@.contains(best),
            forall|j: int| 0 <= j < i ==> dist(best, search) <= dist(#[trigger] indexes@[j], search),
            forall|j: int|
                0 <= j < i && dist(#[trigger] indexes@[j], search) == dist(best, search)
                    ==> best <= indexes@[j],
        decreases indexes@.len() - i,
    {
        let cand: usize = indexes[i];
        let d_cand: usize = if cand >= search {
            cand - search
        } else {
            search - cand
        };
        let d_best: usize = if best >= search {
            best - search
        } else {
            search - best
        };
        if d_cand < d_best || (d_cand == d_best && cand < best) {
            best = cand;
        }
        i = i + 1;
    }
    Option::Some(best)
}

/// The lines of a buffer: the pieces between newline characters, in order.
pub open spec fn split_lines(s: Seq<char>) -> Seq<Seq<char>>
    decreases s.len(),
    via split_lines_decreases
{
    match first_occurrence(s, seq!['\n']) {
        Option::Some(i) => seq![s.subrange(0, i)] + split_lines(
            s.subrange(i + 1, s.len() as int),
        ),
        Option::None => seq![s],
    }
}

#[via_fn]
proof fn split_lines_decreases(s: Seq<char>) {
    lemma_first_occurrence_from(s, seq!['\n'], 0);
}

/// A pattern to highlight and the attributes painted on its matches.
#[derive(Debug)]
pub struct DecorationPattern {
    pattern: String,
    attributes: Vec<Attribute>,
}

impl DecorationPattern {
    /// The pattern source of this rule.
    pub closed spec fn pattern_view(&self) -> Seq<char> {
        self.pattern@
    }

    /// The attributes this rule paints.
    pub closed spec fn attrs_view(&self) -> Seq<Attribute> {
        self.attributes@
    }

    /// Builds a rule carrying a single attribute.
    pub fn from_single_attr(attr: Attribute, pattern: &str) -> (r: DecorationPattern)
        ensures
            r.pattern_view() == pattern@,
            r.attrs_view() == seq![attr],
    {
        let mut attributes: Vec<Attribute> = Vec::new();
        attributes.push(attr);
        proof {
            assert(attributes@ =~= seq![attr]);
        }
        DecorationPattern { pattern: pattern.to_owned(), attributes }
    }

    /// The pattern source of this rule, for compiling it again.
    pub fn pattern_str(&self) -> (r: &str)
        ensures
            r@ == self.pattern_view(),
    {
        self.pattern.as_str()
    }

    /// An owned copy of this rule.
    pub fn duplicate(&self) -> (r: DecorationPattern)
        ensures
            r.pattern_view() == self.pattern_view(),
            r.attrs_view() == self.attrs_view(),
    {
        DecorationPattern {
            pattern: self.pattern.clone(),
            attributes: copy_attrs(&self.attributes),
        }
    }
}

/// An elementwise copy of a run of attributes.
pub(crate) fn copy_attrs(attrs: &Vec<Attribute>) -> (r: Vec<Attribute>)
    ensures
        r@ == attrs@,
{
    let mut r: Vec<Attribute> = Vec::new();
    let mut i: usize = 0;
    while i < attrs.len()
        invariant
            0 <= i <= attrs@.len(),
            r@ =~= attrs@.subrange(0, i as int),
        decreases attrs@.len() - i,
    {
        r.push(attrs[i]);
        i = i + 1;
    }
    proof {
        assert(r@ =~= attrs@);
    }
    r
}

/// A run of one line's text: plain, or painted with attributes.
#[derive(Debug, PartialEq)]
pub enum Decorations {
    Plain(String),
    Attributed(Vec<Attribute>, String),
}

/// The mathematical shape of one decorated run.
pub enum DecorationView {
    Plain(Seq<char>),
    Attributed(Seq<Attribute>, Seq<char>),
}

impl DecorationView {
    /// The text a run covers, whether plain or painted.
    pub open spec fn text(self) -> Seq<char> {
        match self {
            DecorationView::Plain(s) => s,
            DecorationView::Attributed(_, s) => s,
        }
    }
}

impl View for Decorations {
    type V = DecorationView;

    open spec fn view(&self) -> DecorationView {
        match self {
            Decorations::Plain(s) => DecorationView::Plain(s@),
            Decorations::Attributed(a, s) => DecorationView::Attributed(a@, s@),
        }
    }
}

impl Decorations {
    /// An owned copy of this run.
    pub fn duplicate(&self) -> (r: Decorations)
        ensures
            r@ == self@,
    {
        match self {
            Decorations::Plain(s) => Decorations::Plain(s.clone()),
            Decorations::Attributed(a, s) => Decorations::Attributed(copy_attrs(a), s.clone()),
        }
    }
}

/// The runs a sequence of decorations covers, concatenated in order.
pub open spec fn seg_concat(segs: Seq<DecorationView>) -> Seq<char>
    decreases segs.len(),
{
    if segs.len() == 0 {
        Seq::empty()
    } else {
        segs[0].text() + seg_concat(segs.drop_first())
    }
}

/// Concatenation of runs distributes over appending run sequences.
pub proof fn lemma_seg_concat_append(a: Seq<DecorationView>, b: Seq<DecorationView>)
    ensures
        seg_concat(a + b) == seg_concat(a) + seg_concat(b),
    decreases a.len(),
{
    if a.len() == 0 {
        assert(a + b =~= b);
        assert(seg_concat(a) + seg_concat(b) =~= seg_concat(b));
    } else {
        assert((a + b).drop_first() =~= a.drop_first() + b);
        lemma_seg_concat_append(a.drop_first(), b);
        assert((a + b)[0] == a[0]);
        assert(a[0].text() + (seg_concat(a.drop_first()) + seg_concat(b)) =~= (a[0].text()
            + seg_concat(a.drop_first())) + seg_concat(b));
    }
}

/// The match a rule contributes on a window: the text of the last regex
/// match, placed at the first textual occurrence of that text in the window.
/// An empty or absent match contributes nothing.
pub open spec fn rule_match(window: Seq<char>, pattern: Seq<char>) -> Option<(int, Seq<char>)> {
    match last_pattern_match(window, pattern) {
        Option::Some(s) => if s.len() >= 1 {
            match first_occurrence(window, s) {
                Option::Some(i) => Option::Some((i, s)),
                Option::None => Option::None,
            }
        } else {
            Option::None
        },
        Option::None => Option::None,
    }
}

/// The best rule among `rules[k..]` on a window: the one whose contributed
/// match starts earliest; a tie resolves toward the earlier rule. The result
/// carries the rule's position, the match position and the matched text.
pub open spec fn best_match_from(
    window: Seq<char>,
    rules: Seq<DecorationPattern>,
    k: int,
) -> Option<(int, int, Seq<char>)>
    decreases rules.len() - k,
{
    if k < 0 || k >= rules.len() {
        Option::None
    } else {
        let rest = best_match_from(window, rules, k + 1);
        match rule_match(window, rules[k].pattern_view()) {
            Option::Some((i, s)) => match rest {
                Option::Some((k2, i2, s2)) => if i2 < i {
                    Option::Some((k2, i2, s2))
                } else {
                    Option::Some((k, i, s))
                },
                Option::None => Option::Some((k, i, s)),
            },
            Option::None => rest,
        }
    }
}

/// The best rule match on a window over all rules.
pub open spec fn best_match(window: Seq<char>, rules: Seq<DecorationPattern>) -> Option<
    (int, int, Seq<char>),
> {
    best_match_from(window, rules, 0)
}

/// What `best_match_from` returns: a genuine rule position together with
/// that rule's contributed match.
pub proof fn lemma_best_match_from(window: Seq<char>, rules: Seq<DecorationPattern>, k0: int)
    requires
        0 <= k0,
    ensures
        (match best_match_from(window, rules, k0) {
            Option::Some((k, i, s)) => k0 <= k < rules.len() && rule_match(
                window,
                rules[k].pattern_view(),
            ) == Option::Some((i, s)),
            Option::None => true,
        }),
    decreases rules.len() - k0,
{
    if k0 < rules.len() {
        lemma_best_match_from(window, rules, k0 + 1);
    }
}

/// The bounds a best match obeys: it starts inside the window, covers at
/// least one character, and ends inside the window.
pub proof fn lemma_best_match_bounds(window: Seq<char>, rules: Seq<DecorationPattern>)
    ensures
        (match best_match(window, rules) {
            Option::Some((k, i, s)) => 0 <= k < rules.len() && 0 <= i && s.len() >= 1 && i + s.len()
                <= window.len() && s == window.subrange(i, i + s.len() as int),
            Option::None => true,
        }),
{
    lemma_best_match_from(window, rules, 0);
    match best_match(window, rules) {
        Option::Some((k, i, s)) => {
            lemma_first_occurrence_from(window, s, 0);
            assert(occurs_at(window, s, i));
        },
        Option::None => {},
    }
}

/// The decorated runs of a window under a set of rules: repeatedly take the
/// best rule match, emit the plain gap before it and the painted match, and
/// continue past it; a remainder without any match is one plain run.
pub open spec fn decorate_model(window: Seq<char>, rules: Seq<DecorationPattern>) -> Seq<
    DecorationView,
>
    decreases window.len(),
    via decorate_model_decreases
{
    match best_match(window, rules) {
        Option::Some((k, i, s)) => {
            let pre = if i > 0 {
                seq![DecorationView::Plain(window.subrange(0, i))]
            } else {
                Seq::empty()
            };
            pre + seq![DecorationView::Attributed(rules[k].attrs_view(), s)] + decorate_model(
                window.subrange(i + s.len() as int, window.len() as int),
                rules,
            )
        },
        Option::None => if window.len() > 0 {
            seq![DecorationView::Plain(window)]
        } else {
            Seq::empty()
        },
    }
}

#[via_fn]
proof fn decorate_model_decreases(window: Seq<char>, rules: Seq<DecorationPattern>) {
    lemma_best_match_bounds(window, rules);
}

/// Law: the decorated runs of a window concatenate back to exactly the
/// window, in order and without gaps.
pub proof fn lemma_decorate_reconstruct(window: Seq<char>, rules: Seq<DecorationPattern>)
    ensures
        seg_concat(decorate_model(window, rules)) == window,
    decreases window.len(),
{
    lemma_best_match_bounds(window, rules);
    match best_match(window, rules) {
        Option::Some((k, i, s)) => {
            let tail = window.subrange(i + s.len() as int, window.len() as int);
            lemma_decorate_reconstruct(tail, rules);
            let pre = if i > 0 {
                seq![DecorationView::Plain(window.subrange(0, i))]
            } else {
                Seq::<DecorationView>::empty()
            };
            let painted = seq![DecorationView::Attributed(rules[k].attrs_view(), s)];
            lemma_seg_concat_append(pre + painted, decorate_model(tail, rules));
            lemma_seg_concat_append(pre, painted);
            assert(seg_concat(painted) =~= s) by {
                assert(painted.drop_first() =~= Seq::<DecorationView>::empty());
                assert(seg_concat(painted.drop_first()) == Seq::<char>::empty());
                assert(painted[0].text() == s);
                assert(s + Seq::<char>::empty() =~= s);
            }
            if i > 0 {
                assert(seg_concat(pre) =~= window.subrange(0, i)) by {
                    assert(pre.drop_first() =~= Seq::<DecorationView>::empty());
                    assert(seg_concat(pre.drop_first()) == Seq::<char>::empty());
                    assert(pre[0].text() == window.subrange(0, i));
                    assert(window.subrange(0, i) + Seq::<char>::empty() =~= window.subrange(0, i));
                }
            } else {
                assert(seg_concat(pre) =~= Seq::<char>::empty());
            }
            assert(window.subrange(0, i) + s + tail =~= window);
            assert(seg_concat(decorate_model(window, rules)) =~= window);
        },
        Option::None => {
            if window.len() > 0 {
                assert(seg_concat(decorate_model(window, rules)) =~= window) by {
                    assert(decorate_model(window, rules) == seq![DecorationView::Plain(window)]);
                    assert(seq![DecorationView::Plain(window)].drop_first() =~= Seq::<
                        DecorationView,
                    >::empty());
                    assert(seg_concat(seq![DecorationView::Plain(window)].drop_first()) == Seq::<
                        char,
                    >::empty());
                    assert(seq![DecorationView::Plain(window)][0].text() == window);
                    assert(window + Seq::<char>::empty() =~= window);
                }
            }
        },
    }
}

/// The best rule on a window, computed right to left so that earlier rules
/// win ties: the winning rule's position, its match position, and its
/// matched text.
fn find_best(window: &str, rules: &Vec<DecorationPattern>) -> (r: Option<(usize, usize, String)>)
    requires
        forall|k: int|
            0 <= k < rules@.len() ==> #[trigger] pattern_valid(rules@[k].pattern_view()),
    ensures
        (match r {
            Option::Some((k, i, s)) => best_match(window@, rules@) == Option::Some(
                (k as int, i as int, s@),
            ),
            Option::None => best_match(window@, rules@) is None,
        }),
{
    let mut k: usize = rules.len();
    let mut has_best: bool = false;
    let mut bk: usize = 0;
    let mut bi: usize = 0;
    let mut bs: String = String::new();
    while k > 0
        invariant
            0 <= k <= rules@.len(),
            forall|k2: int|
                0 <= k2 < rules@.len() ==> #[trigger] pattern_valid(rules@[k2].pattern_view()),
            !has_best ==> best_match_from(window@, rules@, k as int) is None,
            has_best ==> best_match_from(window@, rules@, k as int) == Option::Some(
                (bk as int, bi as int, bs@),
            ),
        decreases k,
    {
        k = k - 1;
        match match_against_pattern(window, rules[k].pattern.as_str()) {
            Option::Some(s) => {
                proof {
                    lemma_occurs_first(window@, s@);
                }
                match find_first(window, s.as_str()) {
                    Option::Some(i) => {
                        if !has_best || i <= bi {
                            has_best = true;
                            bk = k;
                            bi = i;
                            bs = s;
                        }
                    },
                    Option::None => {
                        // The matched text is a substring of the window, so
                        // the occurrence lookup cannot miss.
                        proof {
                            assert(false);
                        }
                    },
                }
            },
            Option::None => {},
        }
    }
    if has_best {
        Option::Some((bk, bi, bs))
    } else {
        Option::None
    }
}

impl Line {
    /// Splits this line into decorated runs under the given rules: in each
    /// pass the rule whose match starts earliest in the remaining window is
    /// painted, the gap before it stays plain, and the scan continues past
    /// the match; a remainder no rule matches is one plain run.
    pub fn decorate(&self, decorations_patterns: &Vec<DecorationPattern>) -> (words: Vec<
        Decorations,
    >)
        requires
            forall|k: int|
                0 <= k < decorations_patterns@.len() ==> #[trigger] pattern_valid(
                    decorations_patterns@[k].pattern_view(),
                ),
        ensures
            words@.map_values(|d: Decorations| d@) == decorate_model(
                self.buffer@,
                decorations_patterns@,
            ),
            seg_concat(words@.map_values(|d: Decorations| d@)) == self.buffer@,
    {
        let len: usize = self.buffer.as_str().unicode_len();
        let mut words: Vec<Decorations> = Vec::new();
        let mut current_idx: usize = 0;
        proof {
            assert(self.buffer@.subrange(0, len as int) =~= self.buffer@);
            assert(words@.map_values(|d: Decorations| d@) =~= Seq::<DecorationView>::empty());
        }
        loop
            invariant_except_break
                words@.map_values(|d: Decorations| d@) + decorate_model(
                    self.buffer@.subrange(current_idx as int, len as int),
                    decorations_patterns@,
                ) =~= decorate_model(self.buffer@, decorations_patterns@),
            invariant
                0 <= current_idx <= len,
                len == self.buffer@.len(),
                forall|k: int|
                    0 <= k < decorations_patterns@.len() ==> #[trigger] pattern_valid(
                        decorations_patterns@[k].pattern_view(),
                    ),
            ensures
                words@.map_values(|d: Decorations| d@) =~= decorate_model(
                    self.buffer@,
                    decorations_patterns@,
                ),
            decreases len - current_idx,
        {
            let window: &str = self.buffer.as_str().substring_char(current_idx, len);
            let ghost wv = self.buffer@.subrange(current_idx as int, len as int);
            let ghost prev = words@.map_values(|d: Decorations| d@);
            match find_best(window, decorations_patterns) {
                Option::Some((k, i, s)) => {
                    proof {
                        lemma_best_match_bounds(wv, decorations_patterns@);
                    }
                    let s_len: usize = s.as_str().unicode_len();
                    if i > 0 {
                        let pre: &str = window.substring_char(0, i);
                        words.push(Decorations::Plain(pre.to_owned()));
                    }
                    words.push(
                        Decorations::Attributed(copy_attrs(&decorations_patterns[k].attributes), s),
                    );
                    proof {
                        let pre_m: Seq<DecorationView> = if i > 0 {
                            seq![DecorationView::Plain(wv.subrange(0, i as int))]
                        } else {
                            Seq::<DecorationView>::empty()
                        };
                        let painted = seq![
                            DecorationView::Attributed(
                                decorations_patterns@[k as int].attrs_view(),
                                wv.subrange(i as int, i + s_len),
                            ),
                        ];
                        let tail = wv.subrange(i + s_len, wv.len() as int);
                        assert(decorate_model(wv, decorations_patterns@) == pre_m + painted
                            + decorate_model(tail, decorations_patterns@));
                        assert(words@.map_values(|d: Decorations| d@) =~= prev + pre_m + painted);
                        assert(tail =~= self.buffer@.subrange(current_idx + i + s_len, len as int));
                        assert(words@.map_values(|d: Decorations| d@) + decorate_model(
                            tail,
                            decorations_patterns@,
                        ) =~= decorate_model(self.buffer@, decorations_patterns@));
                    }
                    current_idx = current_idx + i + s_len;
                },
                Option::None => {
                    if current_idx < len {
                        words.push(Decorations::Plain(window.to_owned()));
                        proof {
                            assert(decorate_model(wv, decorations_patterns@) == seq![
                                DecorationView::Plain(wv),
                            ]);
                            assert(words@.map_values(|d: Decorations| d@) =~= prev.push(
                                DecorationView::Plain(wv),
                            ));
                            assert(words@.map_values(|d: Decorations| d@) =~= decorate_model(
                                self.buffer@,
                                decorations_patterns@,
                            ));
                        }
                    } else {
                        proof {
                            assert(wv.len() == 0);
                            assert(decorate_model(wv, decorations_patterns@) == Seq::<
                                DecorationView,
                            >::empty());
                            assert(words@.map_values(|d: Decorations| d@) =~= decorate_model(
                                self.buffer@,
                                decorations_patterns@,
                            ));
                        }
                    }
                    break ;
                },
            }
        }
        proof {
            lemma_decorate_reconstruct(self.buffer@, decorations_patterns@);
        }
        words
    }
}

/// An ordered collection of lines.
pub struct Text {
    pub lines: Vec<Line>,
}

/// The buffers held by a sequence of lines.
pub open spec fn line_views(lines: Seq<Line>) -> Seq<Seq<char>> {
    lines.map_values(|l: Line| l.buffer@)
}

impl Text {
    /// An empty collection.
    pub fn new() -> (t: Text)
        ensures
            t.lines@.len() == 0,
    {
        Text { lines: Vec::new() }
    }

    /// Splits a buffer at newline characters into its lines.
    pub fn from(buffer: &str) -> (t: Text)
        ensures
            line_views(t.lines@) == split_lines(buffer@),
    {
        let mut t = Text { lines: Vec::new() };
        t.fill_from_buffer(buffer);
        proof {
            assert(line_views(Seq::<Line>::empty()) =~= Seq::<Seq<char>>::empty());
            assert(line_views(t.lines@) =~= split_lines(buffer@));
        }
        t
    }

    /// Appends one line.
    pub fn add_line(&mut self, line: &str)
        ensures
            line_views(final(self).lines@) == line_views(old(self).lines@).push(line@),
    {
        self.lines.push(Line::from(line));
        proof {
            assert(line_views(self.lines@) =~= line_views(old(self).lines@).push(line@));
        }
    }

    /// Splits a buffer at newline characters and appends the pieces.
    pub fn fill_from_buffer(&mut self, buffer: &str)
        ensures
            line_views(final(self).lines@) == line_views(old(self).lines@) + split_lines(buffer@),
    {
        let len: usize = buffer.unicode_len();
        let mut start: usize = 0;
        proof {
            assert(buffer@.subrange(0, len as int) =~= buffer@);
        }
        loop
            invariant_except_break
                line_views(self.lines@) + split_lines(buffer@.subrange(start as int, len as int))
                    =~= line_views(old(self).lines@) + split_lines(buffer@),
            invariant
                0 <= start <= len,
                len == buffer@.len(),
            ensures
                line_views(self.lines@) =~= line_views(old(self).lines@) + split_lines(buffer@),
            decreases len - start,
        {
            let rest: &str = buffer.substring_char(start, len);
            let ghost rest_view = buffer@.subrange(start as int, len as int);
            let ghost prev = self.lines@;
            let next = find_first(rest, "\n");
            proof {
                reveal_strlit("\n");
                assert("\n"@ =~= seq!['\n']);
            }
            match next {
                Option::Some(i) => {
                    proof {
                        lemma_first_occurrence_from(rest_view, seq!['\n'], 0);
                        assert(occurs_at(rest_view, seq!['\n'], i as int));
                    }
                    let piece: &str = rest.substring_char(0, i);
                    self.lines.push(Line { buffer: piece.to_owned() });
                    proof {
                        let tail = rest_view.subrange(i + 1, rest_view.len() as int);
                        assert(split_lines(rest_view) == seq![rest_view.subrange(0, i as int)]
                            + split_lines(tail));
                        assert(line_views(self.lines@) =~= line_views(prev).push(
                            rest_view.subrange(0, i as int),
                        ));
                        assert(line_views(self.lines@) + split_lines(tail) =~= line_views(prev)
                            + split_lines(rest_view));
                        assert(tail =~= buffer@.subrange(start + i + 1, len as int));
                    }
                    start = start + i + 1;
                },
                Option::None => {
                    proof {
                        lemma_first_occurrence_from(rest_view, seq!['\n'], 0);
                        assert(split_lines(rest_view) == seq![rest_view]);
                    }
                    self.lines.push(Line { buffer: rest.to_owned() });
                    proof {
                        assert(line_views(self.lines@) =~= line_views(prev).push(rest_view));
                        assert(line_views(self.lines@) =~= line_views(old(self).lines@)
                            + split_lines(buffer@));
                    }
                    break ;
                },
            }
        }
    }
}

} // verus!
