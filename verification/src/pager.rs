//! Terminal capability interface and the viewport arithmetic built on it:
//! how many lines fit a screen, where a line is cut, and which decorated
//! runs each visible row shows.

use vstd::prelude::*;

verus! {

use vstd::string::StrSliceExecFns;
use crate::utils::{
    DecorationPattern, DecorationView, Decorations, Line, copy_attrs, decorate_model,
    pattern_compiles, pattern_valid, seg_concat,
};

/// A key event delivered by the terminal.
#[derive(Debug, Copy, Clone)]
pub enum Key {
    Backspace,
    Left,
    Right,
    Up,
    Down,
    Home,
    End,
    Tab,
    Enter,
    PageUp,
    PageDown,
    Delete,
    Insert,
    F(u8),
    Char(char),
    Alt(char),
    Ctrl(char),
    Null,
    Esc,
}

/// The product of two machine-word values fits a double-width integer.
proof fn lemma_word_product_fits(a: u128, b: u128)
    requires
        a <= 0xffff_ffff_ffff_ffff,
        b <= 0xffff_ffff_ffff_ffff,
    ensures
        a * b <= 0xffff_ffff_ffff_ffff * 0xffff_ffff_ffff_ffff,
{
    assert(a * b <= 0xffff_ffff_ffff_ffff * 0xffff_ffff_ffff_ffff) by (nonlinear_arith)
        requires
            a <= 0xffff_ffff_ffff_ffff,
            b <= 0xffff_ffff_ffff_ffff,
    ;
}

/// Subtraction on screen coordinates that stops at zero.
pub open spec fn floor_sub(a: int, b: int) -> int {
    if a >= b {
        a - b
    } else {
        0
    }
}

/// The character budget of a screen position: the rows between `row` and
/// the footer that `offset` reserves, times the width, less the columns
/// already used on the current row.
pub open spec fn row_budget(width: int, height: int, offset: int, col: int, row: int) -> int {
    floor_sub(floor_sub(floor_sub(height, offset), row) * width, col)
}

/// How many characters of a buffer of `buffer_len` characters fit the
/// remaining screen budget; a buffer over budget is cut one short of it.
pub fn printable_prefix(
    buffer_len: usize,
    width: usize,
    height: usize,
    offset: usize,
    col: usize,
    row: usize,
) -> (r: usize)
    ensures
        r <= buffer_len,
        ({
            let b = row_budget(width as int, height as int, offset as int, col as int, row as int);
            if buffer_len <= b {
                r == buffer_len
            } else {
                r == floor_sub(b, 1)
            }
        }),
{
    let end_height: usize = if height > offset {
        height - offset
    } else {
        0
    };
    let lines_to_end: usize = if end_height > row {
        end_height - row
    } else {
        0
    };
    proof {
        lemma_word_product_fits(lines_to_end as u128, width as u128);
    }
    let product: u128 = (lines_to_end as u128) * (width as u128);
    let limit: u128 = if product > (col as u128) {
        product - (col as u128)
    } else {
        0
    };
    if (buffer_len as u128) > limit {
        if limit > 0 {
            (limit - 1) as usize
        } else {
            0
        }
    } else {
        buffer_len
    }
}

/// The terminal capability interface: sizes, cursor motion, raw output and
/// key input are what a concrete terminal supplies; the two provided
/// operations place text against the screen's limits.
pub trait TermOperations {
    /// The screen size as columns and rows.
    fn term_size(&mut self) -> (usize, usize);

    /// Writes text at the cursor.
    fn print(&mut self, text: &str);

    /// Clears the whole screen.
    fn clear(&mut self);

    /// Moves the cursor to a column and row.
    fn mv_cursor(&mut self, pos: (usize, usize));

    /// The cursor position as column and row.
    fn cursor_pos(&mut self) -> (usize, usize);

    /// Clears the cursor's row.
    fn clear_line(&mut self);

    /// Clears the cursor's row from the given position on.
    fn clear_line_from(&mut self, pos: (usize, usize));

    /// Blocks for the next key event.
    fn input_key(&mut self) -> Key;

    /// Writes as much of a buffer as fits between the cursor and the footer
    /// that `offset` rows reserve, cutting it to the budget.
    fn print_buffer(&mut self, buffer: &str, offset: usize) {
        let (width, height) = self.term_size();
        let (col, row) = self.cursor_pos();
        let len: usize = buffer.unicode_len();
        let n: usize = printable_prefix(len, width, height, offset, col, row);
        if n == len {
            self.print(buffer);
        } else {
            self.print(buffer.substring_char(0, n));
        }
    }

    /// The tail of a line that does not fit one row, or nothing when the
    /// whole line fits.
    fn top_leftofer<'a>(&mut self, line: &'a str) -> Option<&'a str> {
        let (max_x, _) = self.term_size();
        line_overflow(line, max_x)
    }
}

/// The tail of a line past the first `width` characters, or nothing when
/// the line fits `width` columns.
pub fn line_overflow(line: &str, width: usize) -> (r: Option<&str>)
    ensures
        line@.len() <= width ==> r is None,
        line@.len() > width ==> (r matches Option::Some(t) && t@ == line@.subrange(
            width as int,
            line@.len() as int,
        )),
{
    let len: usize = line.unicode_len();
    if len <= width {
        Option::None
    } else {
        Option::Some(line.substring_char(width, len))
    }
}

/// A terminal stand-in with a fixed size, cursor position and key event.
pub struct PagerMock {
    pub size: (usize, usize),
    pub cursor_pos: (usize, usize),
    pub input_key: Key,
}

impl PagerMock {
    /// A ten-by-ten screen with the cursor at the origin.
    pub fn default() -> (m: PagerMock)
        ensures
            m.size == (10usize, 10usize),
            m.cursor_pos == (0usize, 0usize),
            m.input_key is Enter,
    {
        PagerMock { size: (10, 10), cursor_pos: (0, 0), input_key: Key::Enter }
    }

    /// The same stand-in with another screen size.
    pub fn with_size(self, size: (usize, usize)) -> (m: PagerMock)
        ensures
            m.size == size,
            m.cursor_pos == self.cursor_pos,
            m.input_key == self.input_key,
    {
        PagerMock { size, ..self }
    }

    /// The same stand-in with another cursor position.
    pub fn with_cursor_pos(self, pos: (usize, usize)) -> (m: PagerMock)
        ensures
            m.size == self.size,
            m.cursor_pos == pos,
            m.input_key == self.input_key,
    {
        PagerMock { cursor_pos: pos, ..self }
    }
}

impl TermOperations for PagerMock {
    fn term_size(&mut self) -> (usize, usize) {
        self.size
    }

    fn print(&mut self, text: &str) {
    }

    fn clear(&mut self) {
    }

    fn mv_cursor(&mut self, pos: (usize, usize)) {
    }

    fn cursor_pos(&mut self) -> (usize, usize) {
        self.cursor_pos
    }

    fn clear_line(&mut self) {
    }

    fn clear_line_from(&mut self, pos: (usize, usize)) {
    }

    fn input_key(&mut self) -> Key {
        self.input_key
    }
}

/// One decorated run cut to `n` characters.
pub open spec fn seg_take(seg: DecorationView, n: int) -> DecorationView {
    match seg {
        DecorationView::Plain(s) => DecorationView::Plain(s.take(n)),
        DecorationView::Attributed(a, s) => DecorationView::Attributed(a, s.take(n)),
    }
}

/// Decorated runs cut to a character budget: whole runs pass until one
/// crosses the budget; that one is cut to it and the rest are dropped.
pub open spec fn truncate_segs(segs: Seq<DecorationView>, budget: int) -> Seq<DecorationView>
    decreases segs.len(),
{
    if segs.len() == 0 || budget <= 0 {
        Seq::empty()
    } else {
        let t = segs[0].text();
        if t.len() <= budget {
            seq![segs[0]] + truncate_segs(segs.drop_first(), budget - t.len())
        } else {
            seq![seg_take(segs[0], budget)]
        }
    }
}

/// The character count of one run.
fn decoration_len(d: &Decorations) -> (n: usize)
    ensures
        n == d@.text().len(),
{
    match d {
        Decorations::Plain(s) => s.as_str().unicode_len(),
        Decorations::Attributed(_, s) => s.as_str().unicode_len(),
    }
}

/// One run cut to its first `n` characters.
fn take_decoration(d: &Decorations, n: usize) -> (r: Decorations)
    requires
        n <= d@.text().len(),
    ensures
        r@ == seg_take(d@, n as int),
{
    match d {
        Decorations::Plain(s) => Decorations::Plain(s.as_str().substring_char(0, n).to_owned()),
        Decorations::Attributed(a, s) => Decorations::Attributed(
            copy_attrs(a),
            s.as_str().substring_char(0, n).to_owned(),
        ),
    }
}

/// Cuts a row's decorated runs to a character budget.
pub fn truncate_row(segs: &Vec<Decorations>, budget: usize) -> (out: Vec<Decorations>)
    ensures
        out@.map_values(|d: Decorations| d@) == truncate_segs(
            segs@.map_values(|d: Decorations| d@),
            budget as int,
        ),
{
    let ghost all = segs@.map_values(|d: Decorations| d@);
    let mut out: Vec<Decorations> = Vec::new();
    let mut i: usize = 0;
    let mut remaining: usize = budget;
    proof {
        assert(all.subrange(0, all.len() as int) =~= all);
        assert(all.subrange(i as int, all.len() as int) =~= all);
    }
    while i < segs.len()
        invariant_except_break
            out@.map_values(|d: Decorations| d@) + truncate_segs(
                all.subrange(i as int, all.len() as int),
                remaining as int,
            ) =~= truncate_segs(all, budget as int),
        invariant
            all == segs@.map_values(|d: Decorations| d@),
            0 <= i <= segs@.len(),
            all.len() == segs@.len(),
        ensures
            out@.map_values(|d: Decorations| d@) =~= truncate_segs(all, budget as int),
        decreases segs@.len() - i,
    {
        let ghost rest = all.subrange(i as int, all.len() as int);
        let ghost prev = out@.map_values(|d: Decorations| d@);
        if remaining == 0 {
            proof {
                assert(truncate_segs(rest, 0) == Seq::<DecorationView>::empty());
            }
            break ;
        }
        let text_len: usize = decoration_len(&segs[i]);
        if text_len <= remaining {
            out.push(segs[i].duplicate());
            proof {
                assert(rest[0] == all[i as int]);
                assert(rest.drop_first() =~= all.subrange(i + 1, all.len() as int));
                assert(truncate_segs(rest, remaining as int) == seq![rest[0]] + truncate_segs(
                    rest.drop_first(),
                    remaining - text_len,
                ));
                assert(out@.map_values(|d: Decorations| d@) =~= prev.push(all[i as int]));
                assert(out@.map_values(|d: Decorations| d@) + truncate_segs(
                    all.subrange(i + 1, all.len() as int),
                    (remaining - text_len) as int,
                ) =~= truncate_segs(all, budget as int));
            }
            remaining = remaining - text_len;
            i = i + 1;
        } else {
            out.push(take_decoration(&segs[i], remaining));
            proof {
                assert(rest[0] == all[i as int]);
                assert(truncate_segs(rest, remaining as int) == seq![
                    seg_take(rest[0], remaining as int),
                ]);
                assert(out@.map_values(|d: Decorations| d@) =~= prev.push(
                    seg_take(all[i as int], remaining as int),
                ));
                assert(out@.map_values(|d: Decorations| d@) =~= truncate_segs(
                    all,
                    budget as int,
                ));
            }
            break ;
        }
    }
    out
}

/// What one visible row shows: the decorated runs of its line under the
/// given rules when they all compile, the whole line as one plain run when
/// any rule fails to, cut either way to the row's budget.
pub open spec fn planned_row(
    line: Seq<char>,
    rules: Seq<DecorationPattern>,
    rules_ok: bool,
    budget: int,
) -> Seq<DecorationView> {
    if rules_ok {
        truncate_segs(decorate_model(line, rules), budget)
    } else {
        truncate_segs(seq![DecorationView::Plain(line)], budget)
    }
}

/// The windower's output: the decorated runs of each visible row, how many
/// lines were placed, and how many rows below them carry the filler marker.
pub struct RenderPlan {
    pub rows: Vec<Vec<Decorations>>,
    pub printed_lines: usize,
    pub filler_rows: usize,
}

/// Whether every rule's pattern compiles.
pub fn all_patterns_valid(rules: &Vec<DecorationPattern>) -> (r: bool)
    ensures
        r == (forall|k: int|
            0 <= k < rules@.len() ==> #[trigger] pattern_valid(rules@[k].pattern_view())),
{
    let mut k: usize = 0;
    while k < rules.len()
        invariant
            0 <= k <= rules@.len(),
            forall|j: int| 0 <= j < k ==> #[trigger] pattern_valid(rules@[j].pattern_view()),
        decreases rules@.len() - k,
    {
        if !pattern_compiles(rules[k].pattern_str()) {
            proof {
                assert(!pattern_valid(rules@[k as int].pattern_view()));
            }
            return false;
        }
        k = k + 1;
    }
    true
}

/// Plans one screen of output: starting at the first given line, each row
/// down to the footer boundary shows one line's decorated runs cut to that
/// row's budget; rows left under the content carry the filler marker. The
/// planned line count, not the raw height, is the paging unit.
pub fn render_rows(
    lines: &[Line],
    rules: &Vec<DecorationPattern>,
    width: usize,
    height: usize,
    userbar_height: usize,
) -> (plan: RenderPlan)
    ensures
        ({
            let content = floor_sub(height as int, userbar_height as int);
            let rules_ok = forall|k: int|
                0 <= k < rules@.len() ==> #[trigger] pattern_valid(rules@[k].pattern_view());
            &&& plan.printed_lines == (if lines@.len() <= content {
                lines@.len() as int
            } else {
                content
            })
            &&& plan.rows@.len() == plan.printed_lines
            &&& plan.filler_rows == content - plan.printed_lines
            &&& forall|r: int|
                0 <= r < plan.rows@.len() ==> (#[trigger] plan.rows@[r])@.map_values(
                    |d: Decorations| d@,
                ) == planned_row(
                    lines@[r].buffer@,
                    rules@,
                    rules_ok,
                    row_budget(width as int, height as int, userbar_height as int, 0, r),
                )
        }),
{
    let content_height: usize = if height > userbar_height {
        height - userbar_height
    } else {
        0
    };
    let ok: bool = all_patterns_valid(rules);
    let n: usize = if lines.len() < content_height {
        lines.len()
    } else {
        content_height
    };
    let mut rows: Vec<Vec<Decorations>> = Vec::new();
    let mut r: usize = 0;
    while r < n
        invariant
            0 <= r <= n,
            n <= lines@.len(),
            n <= content_height,
            content_height == floor_sub(height as int, userbar_height as int),
            n == (if lines@.len() <= content_height as int {
                lines@.len() as int
            } else {
                content_height as int
            }),
            ok == (forall|k: int|
                0 <= k < rules@.len() ==> #[trigger] pattern_valid(rules@[k].pattern_view())),
            rows@.len() == r,
            forall|q: int|
                0 <= q < r ==> (#[trigger] rows@[q])@.map_values(|d: Decorations| d@)
                    == planned_row(
                    lines@[q].buffer@,
                    rules@,
                    ok,
                    row_budget(width as int, height as int, userbar_height as int, 0, q),
                ),
        decreases n - r,
    {
        let line: &Line = vstd::slice::slice_index_get(lines, r);
        let segs: Vec<Decorations> = if ok {
            line.decorate(rules)
        } else {
            one_plain_run(line)
        };
        let ghost seg_views = segs@.map_values(|d: Decorations| d@);
        let rows_left: usize = content_height - r;
        proof {
            lemma_word_product_fits(rows_left as u128, width as u128);
        }
        let product: u128 = (rows_left as u128) * (width as u128);
        let total_len: usize = line.buffer.as_str().unicode_len();
        let ghost budget = row_budget(
            width as int,
            height as int,
            userbar_height as int,
            0,
            r as int,
        );
        proof {
            assert(budget == rows_left * width);
            if ok {
                crate::utils::lemma_decorate_reconstruct(lines@[r as int].buffer@, rules@);
            } else {
                assert(seg_views =~= seq![DecorationView::Plain(lines@[r as int].buffer@)]);
                assert(seg_views.drop_first() =~= Seq::<DecorationView>::empty());
                assert(seg_concat(seg_views.drop_first()) == Seq::<char>::empty());
                assert(lines@[r as int].buffer@ + Seq::<char>::empty() =~= lines@[
                    r as int
                ].buffer@);
            }
            assert(seg_concat(seg_views) == lines@[r as int].buffer@);
        }
        let row_segs: Vec<Decorations> = if (total_len as u128) < product {
            proof {
                lemma_truncate_full(seg_views, budget);
            }
            segs
        } else {
            truncate_row(&segs, product as usize)
        };
        rows.push(row_segs);
        r = r + 1;
    }
    RenderPlan { rows, printed_lines: n, filler_rows: content_height - n }
}

/// The whole line as a single plain run.
fn one_plain_run(line: &Line) -> (segs: Vec<Decorations>)
    ensures
        segs@.map_values(|d: Decorations| d@) == seq![DecorationView::Plain(line.buffer@)],
{
    let mut segs: Vec<Decorations> = Vec::new();
    segs.push(Decorations::Plain(line.buffer.clone()));
    proof {
        assert(segs@.map_values(|d: Decorations| d@) =~= seq![
            DecorationView::Plain(line.buffer@),
        ]);
    }
    segs
}

/// A budget strictly over the whole text's length leaves the runs uncut.
pub proof fn lemma_truncate_full(segs: Seq<DecorationView>, budget: int)
    requires
        seg_concat(segs).len() < budget,
    ensures
        truncate_segs(segs, budget) == segs,
    decreases segs.len(),
{
    if segs.len() == 0 {
        assert(truncate_segs(segs, budget) =~= segs);
    } else {
        let t = segs[0].text();
        assert(seg_concat(segs) == t + seg_concat(segs.drop_first()));
        assert(t.len() <= budget);
        lemma_truncate_full(segs.drop_first(), budget - t.len());
        assert(truncate_segs(segs, budget) =~= segs);
    }
}

} // verus!
