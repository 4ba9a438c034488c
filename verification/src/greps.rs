//! The filter stack: an ordered sequence of filter levels over the loaded
//! lines, a selected level, and the active search state.

use vstd::prelude::*;

verus! {

use vstd::string::StringExecFns;
use crate::utils::{
    Attribute, DecorationPattern, Line, dist, find_closest_index, is_nearest, pattern_compiles,
    pattern_matches, pattern_valid, regex_line_matches,
};

/// One filter level: its composed label, a cursor into its line subset, the
/// ascending match indices of the current search, and the line subset.
pub struct Grep {
    pub patern: String,
    pub line_index: usize,
    pub search_lines_idxs: Vec<usize>,
    pub lines: Vec<Line>,
}

impl Grep {
    /// The match indices of the most recent search on this level.
    pub open spec fn search_idxs(&self) -> Seq<usize> {
        self.search_lines_idxs@
    }

    /// The cursor is a valid position in the line subset (or the subset is
    /// empty and the cursor rests at zero), and the match indices ascend
    /// strictly and stay inside the subset.
    pub open spec fn wf(&self) -> bool {
        &&& (self.lines@.len() == 0 ==> self.line_index == 0)
        &&& (self.lines@.len() > 0 ==> self.line_index < self.lines@.len())
        &&& (forall|i: int, j: int|
            0 <= i < j < self.search_idxs().len() ==> #[trigger] self.search_idxs()[i]
                < #[trigger] self.search_idxs()[j])
        &&& (forall|i: int|
            0 <= i < self.search_idxs().len() ==> #[trigger] self.search_idxs()[i]
                < self.lines@.len())
    }
}

/// `idxs` lists, exactly once each and in ascending order, the positions in
/// `lines` whose text `pattern` matches.
pub open spec fn lists_matches(idxs: Seq<usize>, pattern: Seq<char>, lines: Seq<Line>) -> bool {
    &&& (forall|i: int, j: int|
        0 <= i < j < idxs.len() ==> #[trigger] idxs[i] < #[trigger] idxs[j])
    &&& (forall|i: int| 0 <= i < idxs.len() ==> #[trigger] idxs[i] < lines.len())
    &&& (forall|p: int|
        0 <= p < lines.len() ==> (idxs.contains(p as usize) <==> #[trigger] pattern_matches(
            pattern,
            lines[p].buffer@,
        )))
}

/// The position one step after `i`, saturating at the largest position.
fn step_forward(i: usize) -> (r: usize)
    ensures
        i < usize::MAX ==> r == i + 1,
        i == usize::MAX ==> r == i,
{
    if i < usize::MAX {
        i + 1
    } else {
        i
    }
}

/// The position one step before `i`; the first position steps to itself.
fn step_backward(i: usize) -> (r: usize)
    ensures
        i > 0 ==> r == i - 1,
        i == 0 ==> r == 0,
{
    if i != 0 {
        i - 1
    } else {
        i
    }
}

/// The test a filter pattern applies to each line.
pub open spec fn match_pred(pattern: Seq<char>) -> spec_fn(Line) -> bool {
    |l: Line| pattern_matches(pattern, l.buffer@)
}

/// `pos` places each element of `sub` in `sup`: it is as long as `sub`,
/// ascends strictly, and `sub` agrees with `sup` at the placed positions.
pub open spec fn embeds_at<A>(pos: Seq<int>, sub: Seq<A>, sup: Seq<A>) -> bool {
    &&& pos.len() == sub.len()
    &&& (forall|i: int|
        0 <= i < pos.len() ==> 0 <= #[trigger] pos[i] < sup.len() && sub[i] == sup[pos[i]])
    &&& (forall|i: int, j: int| 0 <= i < j < pos.len() ==> #[trigger] pos[i] < #[trigger] pos[j])
}

/// The elements of `sub` appear in `sup` at strictly increasing positions.
pub open spec fn is_subsequence<A>(sub: Seq<A>, sup: Seq<A>) -> bool {
    exists|pos: Seq<int>| embeds_at(pos, sub, sup)
}

/// Law: a filtered sequence holds at most as many elements as its source,
/// and its elements appear in the source in the same relative order.
pub proof fn lemma_filter_is_subsequence<A>(s: Seq<A>, pred: spec_fn(A) -> bool)
    ensures
        s.filter(pred).len() <= s.len(),
        is_subsequence(s.filter(pred), s),
    decreases s.len(),
{
    reveal(Seq::filter);
    if s.len() == 0 {
        let pos = Seq::<int>::empty();
        assert(embeds_at(pos, s.filter(pred), s));
        assert(is_subsequence(s.filter(pred), s));
    } else {
        let head = s.drop_last();
        lemma_filter_is_subsequence(head, pred);
        let pos0 = choose|pos: Seq<int>| embeds_at(pos, head.filter(pred), head);
        assert(embeds_at(pos0, head.filter(pred), head));
        assert forall|j: int| 0 <= j < head.len() implies head[j] == s[j] by {}
        if pred(s.last()) {
            let pos = pos0.push(s.len() - 1);
            assert(s.filter(pred) == head.filter(pred).push(s.last()));
            assert forall|i: int| 0 <= i < pos.len() implies 0 <= #[trigger] pos[i] < s.len()
                && s.filter(pred)[i] == s[pos[i]] by {
                if i < pos.len() - 1 {
                    assert(pos[i] == pos0[i]);
                    assert(0 <= pos0[i] < head.len());
                    assert(s.filter(pred)[i] == head.filter(pred)[i]);
                }
            }
            assert(embeds_at(pos, s.filter(pred), s));
            assert(is_subsequence(s.filter(pred), s));
        } else {
            assert(s.filter(pred) == head.filter(pred));
            assert forall|i: int| 0 <= i < pos0.len() implies 0 <= #[trigger] pos0[i] < s.len()
                && s.filter(pred)[i] == s[pos0[i]] by {
                assert(0 <= pos0[i] < head.len());
            }
            assert(embeds_at(pos0, s.filter(pred), s));
            assert(is_subsequence(s.filter(pred), s));
        }
    }
}

/// Law: a search leaves the cursor on the first match index. From there,
/// the forward step's target (as `next_search` ensures it) is the second
/// match index when there is one and the cursor itself otherwise, and the
/// backward step's target (as `prev_search` ensures it) is the cursor
/// itself, so stepping backward at the first match changes nothing.
pub proof fn lemma_search_stepping(idxs: Seq<usize>, cur: usize, next_cur: usize, prev_cur: usize)
    requires
        idxs.len() > 0,
        forall|i: int, j: int| 0 <= i < j < idxs.len() ==> #[trigger] idxs[i] < #[trigger] idxs[j],
        cur == idxs[0],
        forall|p: int|
            0 <= p < idxs.len() && #[trigger] idxs[p] == cur ==> next_cur == (if p + 1
                < idxs.len() {
                idxs[p + 1]
            } else {
                cur
            }),
        forall|p: int|
            0 <= p < idxs.len() && #[trigger] idxs[p] == cur ==> prev_cur == (if p > 0 {
                idxs[p - 1]
            } else {
                cur
            }),
    ensures
        idxs.len() > 1 ==> next_cur == idxs[1],
        idxs.len() == 1 ==> next_cur == cur,
        prev_cur == cur,
{
    assert(idxs[0] == cur);
}

/// The stack of filter levels, the selected level, and the active search
/// pattern with its derived highlight rule.
pub struct Greps {
    pub greps: Vec<Grep>,
    pub current_search_pattern: String,
    pub decoration: Option<DecorationPattern>,
    pub selected: usize,
}

impl Greps {
    /// The highlight rule derived from the active search pattern, if any.
    pub open spec fn active_rule(&self) -> Option<DecorationPattern> {
        self.decoration
    }

    /// The active search pattern source.
    pub open spec fn active_pattern(&self) -> Seq<char> {
        self.current_search_pattern@
    }

    /// The stack is never empty, the selection is valid, every level is
    /// well formed, and the retained highlight rule compiles.
    pub open spec fn wf(&self) -> bool {
        &&& self.greps@.len() >= 1
        &&& self.selected < self.greps@.len()
        &&& (forall|k: int| 0 <= k < self.greps@.len() ==> (#[trigger] self.greps@[k]).wf())
        &&& (self.active_rule() matches Option::Some(d) ==> pattern_valid(d.pattern_view()))
    }

    /// The selected level.
    pub open spec fn sel_grep(&self) -> Grep {
        self.greps@[self.selected as int]
    }

    /// Builds a stack whose single root level holds every loaded line, with
    /// no search active.
    pub fn new(lines: Vec<Line>) -> (g: Greps)
        ensures
            g.wf(),
            g.greps@.len() == 1,
            g.greps@[0].patern@ == "ROOT"@,
            g.greps@[0].line_index == 0,
            g.greps@[0].search_idxs() == Seq::<usize>::empty(),
            g.greps@[0].lines@ == lines@,
            g.selected == 0,
            g.active_rule() is None,
    {
        let mut greps: Vec<Grep> = Vec::new();
        greps.push(
            Grep {
                patern: "ROOT".to_owned(),
                line_index: 0,
                search_lines_idxs: Vec::new(),
                lines,
            },
        );
        Greps {
            greps,
            current_search_pattern: String::new(),
            decoration: Option::None,
            selected: 0,
        }
    }

    /// The selected level.
    pub fn current_grep(&self) -> (g: &Grep)
        requires
            self.wf(),
        ensures
            *g == self.sel_grep(),
    {
        &self.greps[self.selected]
    }

    /// Moves the selected level's cursor to `index`.
    pub fn change_current_line_index(&mut self, index: usize)
        requires
            old(self).wf(),
            index < old(self).sel_grep().lines@.len() || (old(self).sel_grep().lines@.len() == 0
                && index == 0),
        ensures
            final(self).wf(),
            final(self).greps@ == old(self).greps@.update(
                old(self).selected as int,
                (Grep { line_index: index, ..old(self).sel_grep() }),
            ),
            final(self).selected == old(self).selected,
            final(self).active_rule() == old(self).active_rule(),
            final(self).active_pattern() == old(self).active_pattern(),
    {
        let sel: usize = self.selected;
        self.greps[sel].line_index = index;
        proof {
            assert(self.greps@ =~= old(self).greps@.update(
                sel as int,
                (Grep { line_index: index, ..old(self).sel_grep() }),
            ));
            assert forall|k: int| 0 <= k < self.greps@.len() implies (
            #[trigger] self.greps@[k]).wf() by {
                if k == sel as int {
                    assert(old(self).greps@[k].wf());
                    assert(self.greps@[k].search_idxs() == old(self).greps@[k].search_idxs());
                    assert(self.greps@[k].lines@ == old(self).greps@[k].lines@);
                } else {
                    assert(self.greps@[k] == old(self).greps@[k]);
                    assert(old(self).greps@[k].wf());
                }
            }
        }
    }

    /// Recomputes the selected level's match indices for `pattern`. An
    /// invalid pattern, or one that matches no line, leaves the stack, the
    /// search state and the cursor unchanged. Otherwise the match indices
    /// are installed, the cursor moves to the first match, and the previous
    /// highlight rule gives way to an inverse-video rule for `pattern`.
    pub fn apply_search_patern(&mut self, pattern: &str)
        requires
            old(self).wf(),
        ensures
            final(self).wf(),
            !pattern_valid(pattern@) ==> *final(self) == *old(self),
            (pattern_valid(pattern@) && (forall|p: int|
                0 <= p < old(self).sel_grep().lines@.len() ==> !pattern_matches(
                    pattern@,
                    #[trigger] old(self).sel_grep().lines@[p].buffer@,
                ))) ==> *final(self) == *old(self),
            (pattern_valid(pattern@) && (exists|p: int|
                0 <= p < old(self).sel_grep().lines@.len() && pattern_matches(
                    pattern@,
                    #[trigger] old(self).sel_grep().lines@[p].buffer@,
                ))) ==> {
                &&& final(self).greps@.len() == old(self).greps@.len()
                &&& (forall|k: int|
                    0 <= k < old(self).greps@.len() && k != old(self).selected
                        ==> final(self).greps@[k] == old(self).greps@[k])
                &&& final(self).selected == old(self).selected
                &&& final(self).sel_grep().patern == old(self).sel_grep().patern
                &&& final(self).sel_grep().lines == old(self).sel_grep().lines
                &&& lists_matches(
                    final(self).sel_grep().search_idxs(),
                    pattern@,
                    old(self).sel_grep().lines@,
                )
                &&& final(self).sel_grep().search_idxs().len() > 0
                &&& final(self).sel_grep().line_index == final(self).sel_grep().search_idxs()[0]
                &&& final(self).active_pattern() == pattern@
                &&& (final(self).active_rule() matches Option::Some(d) && d.pattern_view()
                    == pattern@ && d.attrs_view() == seq![Attribute::Inverse])
            },
    {
        if !pattern_compiles(pattern) {
            return ;
        }
        let sel: usize = self.selected;
        let n: usize = self.greps[sel].lines.len();
        let mut idxs: Vec<usize> = Vec::new();
        let mut p: usize = 0;
        while p < n
            invariant
                *self == *old(self),
                self.wf(),
                pattern_valid(pattern@),
                sel == self.selected,
                n == self.greps@[sel as int].lines@.len(),
                0 <= p <= n,
                forall|i: int, j: int|
                    0 <= i < j < idxs@.len() ==> #[trigger] idxs@[i] < #[trigger] idxs@[j],
                forall|i: int| 0 <= i < idxs@.len() ==> #[trigger] idxs@[i] < p,
                forall|q: int|
                    0 <= q < p ==> (idxs@.contains(q as usize) <==> #[trigger] pattern_matches(
                        pattern@,
                        self.greps@[sel as int].lines@[q].buffer@,
                    )),
            decreases n - p,
        {
            let ghost prev_idxs = idxs@;
            let matched: bool = regex_line_matches(
                pattern,
                self.greps[sel].lines[p].buffer.as_str(),
            );
            if matched {
                idxs.push(p);
            }
            proof {
                assert forall|q: int|
                    0 <= q < p + 1 implies (idxs@.contains(q as usize)
                    <==> pattern_matches(
                    pattern@,
                    self.greps@[sel as int].lines@[q].buffer@,
                )) by {
                    if q < p {
                        if prev_idxs.contains(q as usize) {
                            let w = choose|w: int|
                                0 <= w < prev_idxs.len() && prev_idxs[w] == q as usize;
                            assert(idxs@[w] == q as usize);
                            assert(idxs@.contains(q as usize));
                        }
                        if idxs@.contains(q as usize) {
                            let w = choose|w: int| 0 <= w < idxs@.len() && idxs@[w] == q as usize;
                            if w < prev_idxs.len() {
                                assert(prev_idxs[w] == q as usize);
                                assert(prev_idxs.contains(q as usize));
                            } else {
                                assert(idxs@[w] == p as usize);
                            }
                        }
                    } else {
                        if matched {
                            assert(idxs@[idxs@.len() - 1] == p as usize);
                            assert(idxs@.contains(p as usize));
                        } else {
                            if idxs@.contains(p as usize) {
                                let w = choose|w: int|
                                    0 <= w < idxs@.len() && idxs@[w] == p as usize;
                                assert(idxs@[w] < p as usize);
                            }
                        }
                    }
                }
            }
            p = p + 1;
        }
        if idxs.len() > 0 {
            let first: usize = idxs[0];
            proof {
                assert(idxs@[0] < n);
                assert(idxs@.contains(idxs@[0]));
            }
            self.greps[sel].search_lines_idxs = idxs;
            self.greps[sel].line_index = first;
            self.current_search_pattern = pattern.to_owned();
            self.decoration = Option::Some(
                DecorationPattern::from_single_attr(Attribute::Inverse, pattern),
            );
            proof {
                assert(self.sel_grep().search_idxs()[0] < n);
                assert(exists|p: int|
                    0 <= p < old(self).sel_grep().lines@.len() && pattern_matches(
                        pattern@,
                        #[trigger] old(self).sel_grep().lines@[p].buffer@,
                    )) by {
                    let q = self.sel_grep().search_idxs()[0];
                    assert(pattern_matches(pattern@, old(self).sel_grep().lines@[q as int].buffer@));
                }
            }
        } else {
            proof {
                assert forall|p2: int|
                    0 <= p2 < old(self).sel_grep().lines@.len() implies !pattern_matches(
                    pattern@,
                    old(self).sel_grep().lines@[p2].buffer@,
                ) by {
                    assert(!idxs@.contains(p2 as usize));
                }
            }
        }
    }

    /// The rule set for the decoration engine: the active highlight rule,
    /// when one is installed.
    pub fn decorations(&self) -> (r: Vec<DecorationPattern>)
        requires
            self.wf(),
        ensures
            (match self.active_rule() {
                Option::Some(d) => r@.len() == 1 && r@[0].pattern_view() == d.pattern_view()
                    && r@[0].attrs_view() == d.attrs_view(),
                Option::None => r@.len() == 0,
            }),
            forall|k: int| 0 <= k < r@.len() ==> pattern_valid(#[trigger] r@[k].pattern_view()),
    {
        let mut r: Vec<DecorationPattern> = Vec::new();
        match &self.decoration {
            Option::Some(d) => {
                r.push(d.duplicate());
            },
            Option::None => {},
        }
        r
    }

    /// Filters the selected level's lines by `patern` into a new level,
    /// labelled with the composed pattern chain, and selects it. An invalid
    /// pattern leaves the stack unchanged.
    pub fn new_grep(&mut self, patern: &str)
        requires
            old(self).wf(),
        ensures
            final(self).wf(),
            !pattern_valid(patern@) ==> *final(self) == *old(self),
            pattern_valid(patern@) ==> {
                &&& final(self).greps@.len() == old(self).greps@.len() + 1
                &&& (forall|k: int|
                    0 <= k < old(self).greps@.len() ==> final(self).greps@[k] == old(
                        self,
                    ).greps@[k])
                &&& final(self).selected == old(self).greps@.len()
                &&& final(self).greps@.last().patern@ == old(self).sel_grep().patern@ + " > "@
                    + patern@
                &&& final(self).greps@.last().line_index == 0
                &&& final(self).greps@.last().search_idxs() == Seq::<usize>::empty()
                &&& final(self).greps@.last().lines@ == old(self).sel_grep().lines@.filter(
                    match_pred(patern@),
                )
                &&& final(self).active_rule() == old(self).active_rule()
                &&& final(self).active_pattern() == old(self).active_pattern()
            },
    {
        if !pattern_compiles(patern) {
            return ;
        }
        let sel: usize = self.selected;
        let mut label: String = self.greps[sel].patern.clone();
        label.append(" > ");
        label.append(patern);
        let n: usize = self.greps[sel].lines.len();
        let ghost pred = match_pred(patern@);
        let mut new_lines: Vec<Line> = Vec::new();
        let mut p: usize = 0;
        proof {
            reveal(Seq::filter);
            assert(old(self).sel_grep().lines@.subrange(0, 0) =~= Seq::<Line>::empty());
        }
        while p < n
            invariant
                *self == *old(self),
                self.wf(),
                pattern_valid(patern@),
                sel == self.selected,
                n == self.greps@[sel as int].lines@.len(),
                0 <= p <= n,
                new_lines@ == self.greps@[sel as int].lines@.subrange(0, p as int).filter(pred),
                pred == match_pred(patern@),
            decreases n - p,
        {
            let ghost lines_v = self.greps@[sel as int].lines@;
            let matched: bool = regex_line_matches(patern, self.greps[sel].lines[p].buffer.as_str());
            if matched {
                new_lines.push(Line { buffer: self.greps[sel].lines[p].buffer.clone() });
            }
            proof {
                reveal(Seq::filter);
                assert(lines_v.subrange(0, p + 1).drop_last() =~= lines_v.subrange(0, p as int));
                assert(lines_v.subrange(0, p + 1).last() == lines_v[p as int]);
                if matched {
                    assert(new_lines@ =~= lines_v.subrange(0, p as int).filter(pred).push(
                        lines_v[p as int],
                    ));
                }
                assert(new_lines@ == lines_v.subrange(0, p + 1).filter(pred));
            }
            p = p + 1;
        }
        proof {
            assert(self.greps@[sel as int].lines@.subrange(
                0,
                self.greps@[sel as int].lines@.len() as int,
            ) =~= self.greps@[sel as int].lines@);
        }
        self.greps.push(
            Grep { patern: label, line_index: 0, search_lines_idxs: Vec::new(), lines: new_lines },
        );
        self.selected = self.greps.len() - 1;
    }

    /// Moves the selected level's cursor along the match indices: a cursor
    /// away from every match jumps to the nearest one, while a cursor on a
    /// match moves to the index at the position `modifier` computes from the
    /// match's own position, staying put when that position falls outside
    /// the list. With no matches recorded the cursor stays.
    pub fn modify_search<F: Fn(usize) -> usize>(&mut self, modifier: F)
        requires
            old(self).wf(),
            forall|p: usize|
                p < old(self).sel_grep().search_idxs().len() ==> #[trigger] modifier.requires(
                    (p,),
                ),
        ensures
            final(self).wf(),
            final(self).greps@.len() == old(self).greps@.len(),
            final(self).selected == old(self).selected,
            forall|k: int|
                0 <= k < old(self).greps@.len() && k != old(self).selected ==> final(self).greps@[k] == old(self).greps@[k],
            final(self).sel_grep() == (Grep {
                line_index: final(self).sel_grep().line_index,
                ..old(self).sel_grep()
            }),
            final(self).active_rule() == old(self).active_rule(),
            final(self).active_pattern() == old(self).active_pattern(),
            ({
                let idxs = old(self).sel_grep().search_idxs();
                let cur = old(self).sel_grep().line_index;
                let new_cur = final(self).sel_grep().line_index;
                if idxs.len() == 0 {
                    new_cur == cur
                } else if !idxs.contains(cur) {
                    is_nearest(idxs, cur, new_cur)
                } else {
                    forall|p: int|
                        0 <= p < idxs.len() && #[trigger] idxs[p] == cur ==> exists|m: usize|
                            {
                                &&& #[trigger] modifier.ensures((p as usize,), m)
                                &&& new_cur == (if m < idxs.len() {
                                    idxs[m as int]
                                } else {
                                    cur
                                })
                            }
                }
            }),
    {
        let sel: usize = self.selected;
        let cur: usize = self.greps[sel].line_index;
        let idx_len: usize = self.greps[sel].search_lines_idxs.len();
        let ghost idxs = old(self).sel_grep().search_idxs();
        match find_closest_index(self.greps[sel].search_lines_idxs.as_slice(), cur) {
            Option::Some(found) => {
                if found == cur {
                    let mut p: usize = 0;
                    while p < idx_len && self.greps[sel].search_lines_idxs[p] != cur
                        invariant
                            *self == *old(self),
                            self.wf(),
                            sel == self.selected,
                            cur == self.sel_grep().line_index,
                            idxs == self.sel_grep().search_idxs(),
                            idx_len == idxs.len(),
                            idxs.contains(cur),
                            0 <= p <= idx_len,
                            forall|j: int| 0 <= j < p ==> #[trigger] idxs[j] != cur,
                        decreases idx_len - p,
                    {
                        p = p + 1;
                    }
                    proof {
                        if p == idx_len {
                            let w = choose|w: int| 0 <= w < idxs.len() && idxs[w] == cur;
                            assert(idxs[w] != cur);
                        }
                    }
                    let m: usize = modifier(p);
                    if m < idx_len {
                        let target: usize = self.greps[sel].search_lines_idxs[m];
                        self.change_current_line_index(target);
                    }
                    proof {
                        let new_cur = self.sel_grep().line_index;
                        assert forall|p2: int|
                            0 <= p2 < idxs.len() && #[trigger] idxs[p2] == cur implies exists|
                            m2: usize,
                        |
                            {
                                &&& #[trigger] modifier.ensures((p2 as usize,), m2)
                                &&& new_cur == (if m2 < idxs.len() {
                                    idxs[m2 as int]
                                } else {
                                    cur
                                })
                            } by {
                            assert(p2 == p as int);
                            assert(modifier.ensures((p2 as usize,), m) && new_cur == (if m
                                < idxs.len() {
                                idxs[m as int]
                            } else {
                                cur
                            }));
                        }
                    }
                } else {
                    proof {
                        if idxs.contains(cur) {
                            assert(is_nearest(idxs, cur, cur)) by {
                                assert forall|j: int|
                                    0 <= j < idxs.len() && dist(#[trigger] idxs[j], cur) == dist(
                                        cur,
                                        cur,
                                    ) implies cur <= idxs[j] by {}
                            }
                            crate::utils::lemma_nearest_unique(idxs, cur, found, cur);
                        }
                    }
                    self.change_current_line_index(found);
                    proof {
                        let w = choose|w: int| 0 <= w < idxs.len() && idxs[w] == found;
                        assert(idxs[w] < old(self).sel_grep().lines@.len());
                    }
                }
            },
            Option::None => {},
        }
    }

    /// Steps the search forward: on a match, to the following match index;
    /// off a match, to the nearest one; at the last match the cursor stays.
    pub fn next_search(&mut self)
        requires
            old(self).wf(),
        ensures
            final(self).wf(),
            final(self).greps@.len() == old(self).greps@.len(),
            final(self).selected == old(self).selected,
            forall|k: int|
                0 <= k < old(self).greps@.len() && k != old(self).selected ==> final(self).greps@[k] == old(self).greps@[k],
            final(self).sel_grep() == (Grep {
                line_index: final(self).sel_grep().line_index,
                ..old(self).sel_grep()
            }),
            final(self).active_rule() == old(self).active_rule(),
            final(self).active_pattern() == old(self).active_pattern(),
            ({
                let idxs = old(self).sel_grep().search_idxs();
                let cur = old(self).sel_grep().line_index;
                let new_cur = final(self).sel_grep().line_index;
                if idxs.len() == 0 {
                    new_cur == cur
                } else if !idxs.contains(cur) {
                    is_nearest(idxs, cur, new_cur)
                } else {
                    forall|p: int|
                        0 <= p < idxs.len() && #[trigger] idxs[p] == cur ==> new_cur == (if p + 1
                            < idxs.len() {
                            idxs[p + 1]
                        } else {
                            cur
                        })
                }
            }),
    {
        let ghost idxs = old(self).sel_grep().search_idxs();
        let sel: usize = self.selected;
        let idx_len: usize = self.greps[sel].search_lines_idxs.len();
        self.modify_search(step_forward);
        proof {
            let cur = old(self).sel_grep().line_index;
            let new_cur = self.sel_grep().line_index;
            if idxs.len() > 0 && idxs.contains(cur) {
                assert forall|p: int|
                    0 <= p < idxs.len() && #[trigger] idxs[p] == cur implies new_cur == (if p + 1
                    < idxs.len() {
                    idxs[p + 1]
                } else {
                    cur
                }) by {
                    assert(p < idx_len);
                }
            }
        }
    }

    /// Steps the search backward: on a match, to the preceding match index;
    /// off a match, to the nearest one; at the first match the cursor stays.
    pub fn prev_search(&mut self)
        requires
            old(self).wf(),
        ensures
            final(self).wf(),
            final(self).greps@.len() == old(self).greps@.len(),
            final(self).selected == old(self).selected,
            forall|k: int|
                0 <= k < old(self).greps@.len() && k != old(self).selected ==> final(self).greps@[k] == old(self).greps@[k],
            final(self).sel_grep() == (Grep {
                line_index: final(self).sel_grep().line_index,
                ..old(self).sel_grep()
            }),
            final(self).active_rule() == old(self).active_rule(),
            final(self).active_pattern() == old(self).active_pattern(),
            ({
                let idxs = old(self).sel_grep().search_idxs();
                let cur = old(self).sel_grep().line_index;
                let new_cur = final(self).sel_grep().line_index;
                if idxs.len() == 0 {
                    new_cur == cur
                } else if !idxs.contains(cur) {
                    is_nearest(idxs, cur, new_cur)
                } else {
                    forall|p: int|
                        0 <= p < idxs.len() && #[trigger] idxs[p] == cur ==> new_cur == (if p > 0 {
                            idxs[p - 1]
                        } else {
                            cur
                        })
                }
            }),
    {
        let ghost idxs = old(self).sel_grep().search_idxs();
        let sel: usize = self.selected;
        let idx_len: usize = self.greps[sel].search_lines_idxs.len();
        self.modify_search(step_backward);
        proof {
            let cur = old(self).sel_grep().line_index;
            let new_cur = self.sel_grep().line_index;
            if idxs.len() > 0 && idxs.contains(cur) {
                assert forall|p: int|
                    0 <= p < idxs.len() && #[trigger] idxs[p] == cur implies new_cur == (if p > 0 {
                    idxs[p - 1]
                } else {
                    cur
                }) by {
                    assert(p < idx_len);
                    if p == 0 {
                        assert(idxs[0] == cur);
                    }
                }
            }
        }
    }

    /// Moves the selection one level toward the root; at the root it stays.
    pub fn select_one_to_left(&mut self)
        requires
            old(self).wf(),
        ensures
            final(self).wf(),
            final(self).greps@ == old(self).greps@,
            old(self).selected >= 1 ==> final(self).selected == old(self).selected - 1,
            old(self).selected == 0 ==> final(self).selected == 0,
            final(self).active_rule() == old(self).active_rule(),
            final(self).active_pattern() == old(self).active_pattern(),
    {
        if self.selected >= 1 {
            self.selected = self.selected - 1;
        }
    }

    /// Moves the selection one level away from the root; at the last level
    /// it stays.
    pub fn select_one_to_right(&mut self)
        requires
            old(self).wf(),
        ensures
            final(self).wf(),
            final(self).greps@ == old(self).greps@,
            old(self).selected < old(self).greps@.len() - 1 ==> final(self).selected == old(
                self,
            ).selected + 1,
            old(self).selected == old(self).greps@.len() - 1 ==> final(self).selected == old(
                self,
            ).selected,
            final(self).active_rule() == old(self).active_rule(),
            final(self).active_pattern() == old(self).active_pattern(),
    {
        if self.selected < self.greps.len() - 1 {
            self.selected = self.selected + 1;
        }
    }

    /// Removes the selected level and selects its predecessor; at the root
    /// the stack stays unchanged.
    pub fn close_grep(&mut self)
        requires
            old(self).wf(),
        ensures
            final(self).wf(),
            old(self).selected == 0 ==> *final(self) == *old(self),
            old(self).selected != 0 ==> {
                &&& final(self).greps@ == old(self).greps@.remove(old(self).selected as int)
                &&& final(self).selected == old(self).selected - 1
                &&& final(self).active_rule() == old(self).active_rule()
                &&& final(self).active_pattern() == old(self).active_pattern()
            },
    {
        if self.selected != 0 {
            let curent: usize = self.selected;
            self.selected = self.selected - 1;
            self.greps.remove(curent);
        }
    }
}

} // verus!
