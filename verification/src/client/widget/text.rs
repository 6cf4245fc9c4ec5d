//! Styled text and the widget that lays it out in wrapped lines.
use vstd::prelude::*;

use super::super::terminal::{
    put_cell, Frame, TerminalCell, TerminalCellStyle, TerminalPos, TerminalRect, TerminalSize,
};
use super::{apply_constraints, constrained_size, BoxConstraints, Widget};

verus! {

/// A run of text drawn in one style.
#[derive(Clone, Debug)]
pub struct StyledSegment {
    pub text: String,
    pub style: TerminalCellStyle,
}

impl StyledSegment {
    /// `text` in the default style.
    pub fn plain(text: &str) -> (r: Self)
        ensures
            r.text@ == text@,
            r.style == TerminalCellStyle::spec_default(),
    {
        StyledSegment { text: text.to_owned(), style: TerminalCellStyle::default() }
    }

    pub fn styled(text: &str, style: TerminalCellStyle) -> (r: Self)
        ensures
            r.text@ == text@,
            r.style == style,
    {
        StyledSegment { text: text.to_owned(), style }
    }
}

/// Text made of styled runs, in order.
#[derive(Clone, Debug)]
pub struct StyledText {
    pub spans: Vec<StyledSegment>,
}

impl StyledText {
    pub fn new() -> (r: Self)
        ensures
            r.spans@ == Seq::<StyledSegment>::empty(),
    {
        Self { spans: Vec::new() }
    }

    /// Appends `span`; gives the text back for more appends.
    pub fn add_span(&mut self, span: StyledSegment) -> (r: &mut Self)
        ensures
            r.spans@ == old(self).spans@.push(span),
            *final(self) == *final(r),
    {
        self.spans.push(span);
        self
    }

    pub fn with_span(self, span: StyledSegment) -> (r: Self)
        ensures
            r.spans@ == self.spans@.push(span),
    {
        let mut text = self;
        text.spans.push(span);
        text
    }

    /// A single run of `text` in the default style.
    pub fn from_str(text: &str) -> (r: Self)
        ensures
            r.spans@.len() == 1,
            r.spans@[0].text@ == text@,
            r.spans@[0].style == TerminalCellStyle::spec_default(),
    {
        StyledText { spans: vec![StyledSegment::plain(text)] }
    }

    /// A single run of `text` in the default style.
    pub fn from_string(text: String) -> (r: Self)
        ensures
            r.spans@.len() == 1,
            r.spans@[0].text@ == text@,
            r.spans@[0].style == TerminalCellStyle::spec_default(),
    {
        StyledText { spans: vec![StyledSegment { text, style: TerminalCellStyle::default() }] }
    }

    pub fn from_spans(spans: Vec<StyledSegment>) -> (r: Self)
        ensures
            r.spans@ == spans@,
    {
        StyledText { spans }
    }
}

/// The number of characters in `spans`.
pub open spec fn total_chars(spans: Seq<StyledSegment>) -> nat
    decreases spans.len(),
{
    if spans.len() == 0 {
        0
    } else {
        total_chars(spans.drop_last()) + spans.last().text@.len()
    }
}

pub proof fn lemma_total_chars_step(spans: Seq<StyledSegment>, i: int)
    requires
        0 <= i < spans.len(),
    ensures
        total_chars(spans.take(i + 1)) == total_chars(spans.take(i)) + spans[i].text@.len(),
{
    assert(spans.take(i + 1).drop_last() =~= spans.take(i));
}

pub proof fn lemma_total_chars_prefix(spans: Seq<StyledSegment>, i: int)
    requires
        0 <= i <= spans.len(),
    ensures
        total_chars(spans.take(i)) <= total_chars(spans),
    decreases spans.len() - i,
{
    if i < spans.len() {
        lemma_total_chars_step(spans, i);
        lemma_total_chars_prefix(spans, i + 1);
    } else {
        assert(spans.take(i) =~= spans);
    }
}

/// The characters of `spans`, in order, each with the style of its run.
pub open spec fn styled_chars(spans: Seq<StyledSegment>) -> Seq<(char, TerminalCellStyle)>
    decreases spans.len(),
{
    if spans.len() == 0 {
        Seq::empty()
    } else {
        let last = spans.last();
        styled_chars(spans.drop_last()) + last.text@.map_values(|c: char| (c, last.style))
    }
}

/// The characters of the first runs come first, and there are as many
/// characters as [`total_chars`] counts.
pub proof fn lemma_styled_chars_prefix(spans: Seq<StyledSegment>, i: int)
    requires
        0 <= i <= spans.len(),
    ensures
        styled_chars(spans.take(i)) == styled_chars(spans).take(styled_chars(spans.take(i)).len() as int),
        styled_chars(spans.take(i)).len() == total_chars(spans.take(i)),
        styled_chars(spans).len() == total_chars(spans),
    decreases spans.len(),
{
    if spans.len() == 0 {
        assert(spans.take(i) =~= spans);
    } else if i == spans.len() {
        assert(spans.take(i) =~= spans);
        lemma_styled_chars_prefix(spans.drop_last(), i - 1);
        assert(spans.drop_last().take(i - 1) =~= spans.drop_last());
        assert(styled_chars(spans).take(styled_chars(spans).len() as int) =~= styled_chars(spans));
    } else {
        let init = spans.drop_last();
        lemma_styled_chars_prefix(init, i);
        assert(init.take(i) =~= spans.take(i));
        lemma_styled_chars_prefix(init, init.len() as int);
        assert(init.take(init.len() as int) =~= init);
        lemma_total_chars_prefix(init, i);
        let n = styled_chars(spans.take(i)).len() as int;
        assert(n <= styled_chars(init).len());
        assert(styled_chars(spans).take(n) =~= styled_chars(init).take(n));
        assert(spans.take(spans.len() as int) =~= spans);
    }
}

/// The styled characters of the first `i + 1` runs: those of the first `i`,
/// then those of run `i`.
pub proof fn lemma_styled_chars_step(spans: Seq<StyledSegment>, i: int)
    requires
        0 <= i < spans.len(),
    ensures
        styled_chars(spans.take(i + 1)) == styled_chars(spans.take(i)) + spans[i].text@.map_values(
            |c: char| (c, spans[i].style),
        ),
{
    assert(spans.take(i + 1).drop_last() =~= spans.take(i));
    assert(spans.take(i + 1).last() == spans[i]);
}

/// Drawing the first `n` of `chars` from the corner of `bounds`: the cells,
/// the column and row of the next character, the recorded line it is on, and
/// whether drawing has stopped. After the character at a line's recorded
/// length the next goes to the start of the next row; drawing stops when the
/// recorded lines run out or the row would pass the scalar type.
pub open spec fn text_drawing(
    root: TerminalSize,
    bounds: TerminalRect,
    cells: Seq<TerminalCell>,
    chars: Seq<(char, TerminalCellStyle)>,
    lines: Seq<u16>,
    n: nat,
) -> (Seq<TerminalCell>, int, int, int, bool)
    decreases n,
{
    if n == 0 {
        (cells, 0, 0, 0, false)
    } else {
        let (drawn, column, row, line, stopped) = text_drawing(root, bounds, cells, chars, lines, (n - 1) as nat);
        if stopped || line >= lines.len() || row == i32::MAX {
            (drawn, column, row, line, true)
        } else {
            let (ch, style) = chars[n - 1];
            let next = put_cell(
                root,
                bounds,
                drawn,
                TerminalPos { column: column as i32, row: row as i32 },
                TerminalCell { style, character: Some(ch) },
            );
            if column == lines[line] {
                (next, 0, row + 1, line + 1, false)
            } else {
                (next, column + 1, row, line, false)
            }
        }
    }
}

/// Once drawing has stopped, the cells stay as they are.
proof fn lemma_text_drawing_stopped(
    root: TerminalSize,
    bounds: TerminalRect,
    cells: Seq<TerminalCell>,
    chars: Seq<(char, TerminalCellStyle)>,
    lines: Seq<u16>,
    k: nat,
    n: nat,
)
    requires
        k <= n,
        text_drawing(root, bounds, cells, chars, lines, k).4,
    ensures
        text_drawing(root, bounds, cells, chars, lines, n).4,
        text_drawing(root, bounds, cells, chars, lines, n).0 == text_drawing(root, bounds, cells, chars, lines, k).0,
    decreases n - k,
{
    if k < n {
        lemma_text_drawing_stopped(root, bounds, cells, chars, lines, k, (n - 1) as nat);
    }
}

/// Line breaking after `n` characters under a maximum width: the lengths
/// recorded for the lines broken so far, the current column and the widest
/// column reached. A line is broken before a character that would go past the
/// maximum, and is recorded one shorter than the columns it filled.
pub open spec fn wrap(max: Option<u16>, n: nat) -> (Seq<u16>, int, int)
    decreases n,
{
    if n == 0 {
        (Seq::empty(), 0, 0)
    } else {
        let (lines, column, widest) = wrap(max, (n - 1) as nat);
        let breaks = max is Some && column >= max->0;
        let lines2 = if breaks {
            lines.push((column - 1) as u16)
        } else {
            lines
        };
        let column2 = if breaks {
            1
        } else {
            column + 1
        };
        (lines2, column2, if widest > column2 {
            widest
        } else {
            column2
        })
    }
}

/// The line lengths that laying out `n` characters records: the broken lines,
/// then the last line if it holds anything.
pub open spec fn wrapped_lines(max: Option<u16>, n: nat) -> Seq<u16> {
    let (lines, column, _) = wrap(max, n);
    if column > 0 {
        lines.push(column as u16)
    } else {
        lines
    }
}

/// The widest line that laying out `n` characters makes.
pub open spec fn wrapped_width(max: Option<u16>, n: nat) -> int {
    wrap(max, n).2
}

pub proof fn lemma_wrap_bounds(max: Option<u16>, n: nat)
    requires
        max is Some ==> max->0 > 0,
        max is None ==> n <= u16::MAX,
    ensures
        0 <= wrap(max, n).1 <= wrap(max, n).2,
        max is Some ==> wrap(max, n).2 <= max->0,
        max is None ==> wrap(max, n).1 == n && wrap(max, n).2 == n,
        n > 0 ==> wrap(max, n).1 > 0,
    decreases n,
{
    if n > 0 {
        lemma_wrap_bounds(max, (n - 1) as nat);
    }
}

/// Where character `k` goes in text laid out under the maximum width `max`:
/// column `k % m` of row `k / m` under a maximum `m`, column `k` of the first
/// row without one.
pub open spec fn grid_pos(max: Option<u16>, k: int) -> TerminalPos {
    match max {
        Some(m) => TerminalPos { column: (k % (m as int)) as i32, row: (k / (m as int)) as i32 },
        None => TerminalPos { column: k as i32, row: 0 },
    }
}

/// The first `n` of `chars` put one by one from the corner of `bounds`, each
/// in its style at the place [`grid_pos`] gives it.
pub open spec fn grid_drawing(
    root: TerminalSize,
    bounds: TerminalRect,
    cells: Seq<TerminalCell>,
    chars: Seq<(char, TerminalCellStyle)>,
    max: Option<u16>,
    n: nat,
) -> Seq<TerminalCell>
    decreases n,
{
    if n == 0 {
        cells
    } else {
        let (ch, style) = chars[n - 1];
        put_cell(
            root,
            bounds,
            grid_drawing(root, bounds, cells, chars, max, (n - 1) as nat),
            grid_pos(max, n - 1),
            TerminalCell { style, character: Some(ch) },
        )
    }
}

/// Counting one further from `k` in base `m`.
proof fn lemma_div_mod_step(k: int, m: int)
    requires
        0 <= k,
        0 < m,
    ensures
        0 <= k % m < m,
        k % m < m - 1 ==> (k + 1) % m == k % m + 1 && (k + 1) / m == k / m,
        k % m == m - 1 ==> (k + 1) % m == 0 && (k + 1) / m == k / m + 1,
{
    vstd::arithmetic::div_mod::lemma_fundamental_div_mod(k, m);
    vstd::arithmetic::div_mod::lemma_mod_pos_bound(k, m);
    let q = k / m;
    let r = k % m;
    if r < m - 1 {
        assert(k + 1 == q * m + (r + 1)) by (nonlinear_arith)
            requires
                k == m * q + r,
        ;
        vstd::arithmetic::div_mod::lemma_fundamental_div_mod_converse(k + 1, m, q, r + 1);
    } else {
        assert(k + 1 == (q + 1) * m + 0) by (nonlinear_arith)
            requires
                k == m * q + r,
                r == m - 1,
        ;
        vstd::arithmetic::div_mod::lemma_fundamental_div_mod_converse(k + 1, m, q + 1, 0);
    }
}

/// Under a maximum width `m`, laying out `k` characters (at least one) breaks
/// `(k - 1) / m` full lines, each recorded as `m - 1`, and leaves
/// `(k - 1) % m + 1` characters on the current line.
proof fn lemma_wrap_grid(m: u16, k: nat)
    requires
        m > 0,
        k > 0,
    ensures
        wrap(Some(m), k).0.len() == (k - 1) / (m as int),
        forall|j: int| 0 <= j < wrap(Some(m), k).0.len() ==> wrap(Some(m), k).0[j] == m - 1,
        wrap(Some(m), k).1 == (k - 1) % (m as int) + 1,
    decreases k,
{
    if k == 1 {
        vstd::arithmetic::div_mod::lemma_fundamental_div_mod_converse(0, m as int, 0, 0);
    } else {
        lemma_wrap_grid(m, (k - 1) as nat);
        lemma_div_mod_step(k - 2, m as int);
    }
}

/// Without a maximum width no line is broken.
proof fn lemma_wrap_line(k: nat)
    ensures
        wrap(None, k).0 == Seq::<u16>::empty(),
        wrap(None, k).1 == k,
    decreases k,
{
    if k > 0 {
        lemma_wrap_line((k - 1) as nat);
    }
}

/// Over the lines that laying out `n` characters under the maximum width `m`
/// records, the first `k` characters are drawn as [`grid_drawing`] puts them,
/// and before the last the cursor stands at column `k % m` of row and line
/// `k / m`.
proof fn lemma_text_drawing_grid(
    root: TerminalSize,
    bounds: TerminalRect,
    cells: Seq<TerminalCell>,
    chars: Seq<(char, TerminalCellStyle)>,
    m: u16,
    n: nat,
    k: nat,
)
    requires
        m > 0,
        k <= n,
        n <= (m as int) * (i32::MAX as int),
    ensures
        text_drawing(root, bounds, cells, chars, wrapped_lines(Some(m), n), k).0 == grid_drawing(
            root,
            bounds,
            cells,
            chars,
            Some(m),
            k,
        ),
        k < n ==> {
            let (_, column, row, line, stopped) = text_drawing(root, bounds, cells, chars, wrapped_lines(Some(m), n), k);
            &&& column == (k as int) % (m as int)
            &&& row == (k as int) / (m as int)
            &&& line == (k as int) / (m as int)
            &&& !stopped
        },
    decreases k,
{
    if k == 0 {
        vstd::arithmetic::div_mod::lemma_fundamental_div_mod_converse(0, m as int, 0, 0);
    } else {
        let mm = m as int;
        let j = k - 1;
        lemma_text_drawing_grid(root, bounds, cells, chars, m, n, (k - 1) as nat);
        lemma_wrap_grid(m, n);
        lemma_div_mod_step(j, mm);
        lemma_div_mod_step(n - 1, mm);
        vstd::arithmetic::div_mod::lemma_div_is_ordered(j, n - 1, mm);
        vstd::arithmetic::div_mod::lemma_fundamental_div_mod(j, mm);
        vstd::arithmetic::div_mod::lemma_fundamental_div_mod(n - 1, mm);
        let q = (n - 1) / mm;
        let r = (n - 1) % mm;
        assert(q < i32::MAX) by (nonlinear_arith)
            requires
                n - 1 == mm * q + r,
                0 <= r,
                0 < mm,
                n <= mm * (i32::MAX as int),
        ;
        let lines = wrapped_lines(Some(m), n);
        assert(lines.len() == q + 1);
        assert(lines[q] == r + 1);
        assert(forall|i: int| 0 <= i < q ==> lines[i] == m - 1) by {
            assert forall|i: int| 0 <= i < q implies lines[i] == m - 1 by {
                assert(lines[i] == wrap(Some(m), n).0[i]);
            }
        }
        if j / mm == q {
            assert(j % mm <= r);
        }
    }
}

/// Without a maximum width, the first `k` of `n` characters are drawn as
/// [`grid_drawing`] puts them, and before the last the cursor stands at
/// column `k` of the first row.
proof fn lemma_text_drawing_line(
    root: TerminalSize,
    bounds: TerminalRect,
    cells: Seq<TerminalCell>,
    chars: Seq<(char, TerminalCellStyle)>,
    n: nat,
    k: nat,
)
    requires
        k <= n,
        n <= u16::MAX,
    ensures
        text_drawing(root, bounds, cells, chars, wrapped_lines(None, n), k).0 == grid_drawing(
            root,
            bounds,
            cells,
            chars,
            None,
            k,
        ),
        k < n ==> {
            let (_, column, row, line, stopped) = text_drawing(root, bounds, cells, chars, wrapped_lines(None, n), k);
            &&& column == k
            &&& row == 0
            &&& line == 0
            &&& !stopped
        },
    decreases k,
{
    lemma_wrap_line(n);
    if k > 0 {
        lemma_text_drawing_line(root, bounds, cells, chars, n, (k - 1) as nat);
    }
}

#[derive(Clone, Debug)]
pub struct TextWidget {
    text: StyledText,
    computed_size: Option<TerminalSize>,
    computed_line_lengths: Vec<u16>,
}

impl TextWidget {
    pub fn new(text: StyledText) -> (r: Self)
        ensures
            r.text() == text.spans@,
            r.computed_size() == None::<TerminalSize>,
            r.line_lengths() == Seq::<u16>::empty(),
    {
        Self { text, computed_size: None, computed_line_lengths: Vec::new() }
    }

    pub closed spec fn text(&self) -> Seq<StyledSegment> {
        self.text.spans@
    }

    pub closed spec fn computed_size(&self) -> Option<TerminalSize> {
        self.computed_size
    }

    pub closed spec fn line_lengths(&self) -> Seq<u16> {
        self.computed_line_lengths@
    }

    /// Lays the text out in lines no wider than the width constraint's
    /// maximum; the line lengths found are appended to those already recorded.
    pub fn layout_text(&mut self, constraints: BoxConstraints) -> (r: TerminalSize)
        requires
            constraints.width.max is Some ==> constraints.width.max->0 > 0,
            constraints.width.max is None ==> total_chars(old(self).text()) <= u16::MAX,
        ensures
            final(self).text() == old(self).text(),
            final(self).line_lengths() == old(self).line_lengths() + wrapped_lines(
                constraints.width.max,
                total_chars(old(self).text()),
            ),
            r == constrained_size(
                constraints,
                wrapped_width(constraints.width.max, total_chars(old(self).text())) as u16,
                final(self).line_lengths().len() as u16,
            ),
            final(self).computed_size() == Some(r),
    {
        broadcast use vstd::string::group_string_axioms;

        let max_width = constraints.width.max;

        let mut width_bound: u16 = 0;
        let mut current_column: u16 = 0;
        let ghost base = self.computed_line_lengths@;
        let mut i: usize = 0;
        proof {
            assert(self.text.spans@.take(0) =~= Seq::<StyledSegment>::empty());
        }
        while i < self.text.spans.len()
            invariant
                i <= self.text.spans@.len(),
                self.text == old(self).text,
                max_width == constraints.width.max,
                max_width is Some ==> max_width->0 > 0,
                max_width is None ==> total_chars(self.text.spans@) <= u16::MAX,
                ({
                    let (lines, column, widest) = wrap(max_width, total_chars(self.text.spans@.take(i as int)));
                    &&& self.computed_line_lengths@ == base + lines
                    &&& current_column == column
                    &&& width_bound == widest
                }),
            decreases self.text.spans@.len() - i,
        {
            let chars = self.text.spans[i].text.as_str().chars();
            let ghost done = total_chars(self.text.spans@.take(i as int));
            proof {
                lemma_total_chars_step(self.text.spans@, i as int);
                lemma_total_chars_prefix(self.text.spans@, i + 1);
            }
            for _ch in it: chars
                invariant
                    i < self.text.spans@.len(),
                    self.text == old(self).text,
                    it.seq().len() == self.text.spans@[i as int].text@.len(),
                    done + self.text.spans@[i as int].text@.len() == total_chars(
                        self.text.spans@.take(i + 1),
                    ),
                    total_chars(self.text.spans@.take(i + 1)) <= total_chars(self.text.spans@),
                    max_width is Some ==> max_width->0 > 0,
                    max_width is None ==> total_chars(self.text.spans@) <= u16::MAX,
                    ({
                        let (lines, column, widest) = wrap(max_width, done + it.index() as nat);
                        &&& self.computed_line_lengths@ == base + lines
                        &&& current_column == column
                        &&& width_bound == widest
                    }),
            {
                proof {
                    lemma_wrap_bounds(max_width, done + it.index() as nat);
                }
                if match max_width {
                    Some(max) => current_column >= max,
                    None => false,
                } {
                    self.computed_line_lengths.push(current_column - 1);
                    current_column = 0;
                }
                current_column += 1;
                if current_column > width_bound {
                    width_bound = current_column;
                }
            }
            i = i + 1;
        }
        proof {
            assert(self.text.spans@.take(i as int) =~= self.text.spans@);
            lemma_wrap_bounds(max_width, total_chars(self.text.spans@));
        }
        if current_column > 0 {
            self.computed_line_lengths.push(current_column);
        }
        let bounds = apply_constraints(
            constraints,
            width_bound,
            self.computed_line_lengths.len() as u16,
        );
        self.computed_size = Some(bounds);
        bounds
    }
}

impl Widget for TextWidget {
    /// A zero maximum width is refused, and without a maximum width the text
    /// must fit one line of a `u16` length.
    open spec fn can_layout(&self, constraints: BoxConstraints) -> bool {
        &&& constraints.width.max is Some ==> constraints.width.max->0 > 0
        &&& constraints.width.max is None ==> total_chars(self.text()) <= u16::MAX
    }

    /// The text and its recorded lines as [`TextWidget::layout_text`] leaves them.
    open spec fn laid_out_as(&self, after: Self, constraints: BoxConstraints, size: TerminalSize) -> bool {
        let n = total_chars(self.text());
        &&& after.text() == self.text()
        &&& after.line_lengths() == self.line_lengths() + wrapped_lines(constraints.width.max, n)
        &&& size == constrained_size(
            constraints,
            wrapped_width(constraints.width.max, n) as u16,
            after.line_lengths().len() as u16,
        )
        &&& after.computed_size() == Some(size)
    }

    fn layout(&mut self, constraints: BoxConstraints) -> (r: TerminalSize) {
        self.layout_text(constraints)
    }

    /// The characters drawn one after the other from the frame's corner, as
    /// [`text_drawing`] lays them out over the recorded lines.
    open spec fn drawn(&self, root: TerminalSize, bounds: TerminalRect, cells: Seq<TerminalCell>) -> Seq<
        TerminalCell,
    > {
        let chars = styled_chars(self.text());
        text_drawing(root, bounds, cells, chars, self.line_lengths(), chars.len()).0
    }

    /// Draws the characters one after the other, going to the next row after
    /// each recorded line; drawing stops where the recorded lines run out.
    fn render(&self, frame: &mut Frame) {
        broadcast use vstd::string::group_string_axioms;

        let ghost root = frame.root_size();
        let ghost bounds = frame.bounds();
        let ghost start = frame.cells();
        let ghost spans = self.text.spans@;
        let ghost chars = styled_chars(spans);
        let ghost lines = self.computed_line_lengths@;
        proof {
            lemma_styled_chars_prefix(spans, spans.len() as int);
        }
        let mut column: i32 = 0;
        let mut row: i32 = 0;
        let mut line_index: usize = 0;
        let mut i: usize = 0;
        while i < self.text.spans.len()
            invariant
                frame.wf(),
                frame.root_size() == root,
                frame.bounds() == bounds,
                frame.cells().len() == start.len(),
                root == old(frame).root_size(),
                bounds == old(frame).bounds(),
                start == old(frame).cells(),
                spans == self.text.spans@,
                chars == styled_chars(spans),
                lines == self.computed_line_lengths@,
                chars.len() == total_chars(spans),
                i <= spans.len(),
                0 <= column <= u16::MAX,
                0 <= row,
                line_index < lines.len() ==> column <= lines[line_index as int],
                ({
                    let (drawn, c, r, l, stopped) = text_drawing(
                        root,
                        bounds,
                        start,
                        chars,
                        lines,
                        total_chars(spans.take(i as int)),
                    );
                    &&& frame.cells() == drawn
                    &&& column == c
                    &&& row == r
                    &&& line_index == l
                    &&& !stopped
                }),
            decreases spans.len() - i,
        {
            let style = self.text.spans[i].style;
            let chars_of_run = self.text.spans[i].text.as_str().chars();
            let ghost done = total_chars(spans.take(i as int));
            proof {
                lemma_styled_chars_prefix(spans, i as int);
                lemma_styled_chars_prefix(spans, i + 1);
                lemma_styled_chars_step(spans, i as int);
                lemma_total_chars_step(spans, i as int);
                lemma_total_chars_prefix(spans, i + 1);
            }
            for ch in it: chars_of_run
                invariant
                    frame.wf(),
                    frame.root_size() == root,
                    frame.bounds() == bounds,
                    frame.cells().len() == start.len(),
                    root == old(frame).root_size(),
                    bounds == old(frame).bounds(),
                    start == old(frame).cells(),
                    i < spans.len(),
                    style == spans[i as int].style,
                    it.seq() == spans[i as int].text@,
                    spans == self.text.spans@,
                    chars == styled_chars(spans),
                    lines == self.computed_line_lengths@,
                    styled_chars(spans.take(i + 1)) == chars.take(done + spans[i as int].text@.len() as int),
                    styled_chars(spans.take(i + 1)) == styled_chars(spans.take(i as int)) + spans[i as int].text@.map_values(
                        |c: char| (c, spans[i as int].style),
                    ),
                    styled_chars(spans.take(i as int)).len() == done,
                    done + spans[i as int].text@.len() == total_chars(spans.take(i + 1)),
                    done + spans[i as int].text@.len() <= chars.len(),
                    0 <= column <= u16::MAX,
                    0 <= row,
                    line_index < lines.len() ==> column <= lines[line_index as int],
                    ({
                        let (drawn, c, r, l, stopped) = text_drawing(
                            root,
                            bounds,
                            start,
                            chars,
                            lines,
                            (done + it.index()) as nat,
                        );
                        &&& frame.cells() == drawn
                        &&& column == c
                        &&& row == r
                        &&& line_index == l
                        &&& !stopped
                    }),
            {
                let ghost k = (done + it.index()) as nat;
                proof {
                    assert(it.index() < it.seq().len());
                    assert(ch == it.seq()[it.index() as int]);
                    let run = spans[i as int].text@.map_values(|c: char| (c, spans[i as int].style));
                    assert(styled_chars(spans.take(i + 1))[k as int] == run[it.index() as int]);
                    assert(chars[k as int] == styled_chars(spans.take(i + 1))[k as int]);
                    assert(chars[k as int] == (ch, style));
                }
                if line_index >= self.computed_line_lengths.len() || row == i32::MAX {
                    proof {
                        assert(((k + 1) - 1) as nat == k);
                        assert(text_drawing(root, bounds, start, chars, lines, k + 1).4);
                        lemma_text_drawing_stopped(root, bounds, start, chars, lines, k + 1, chars.len());
                        assert(self.drawn(root, bounds, start) == text_drawing(
                            root,
                            bounds,
                            start,
                            chars,
                            lines,
                            chars.len(),
                        ).0);
                    }
                    return;
                }
                frame.put(TerminalPos { column, row }, TerminalCell { style, character: Some(ch) });
                if column == self.computed_line_lengths[line_index] as i32 {
                    column = 0;
                    row = row + 1;
                    line_index = line_index + 1;
                } else {
                    column = column + 1;
                }
            }
            i = i + 1;
        }
        proof {
            assert(spans.take(i as int) =~= spans);
        }
    }
}

/// Text laid out once by a widget with no lines recorded is drawn one
/// character per cell in reading order, each in the style of its run: under a
/// maximum width `m`, character `k` goes to column `k % m` of row `k / m`;
/// without one, to column `k` of the first row. Nothing else is drawn.
pub proof fn lemma_text_drawn_in_grid(
    before: TextWidget,
    after: TextWidget,
    constraints: BoxConstraints,
    size: TerminalSize,
    root: TerminalSize,
    bounds: TerminalRect,
    cells: Seq<TerminalCell>,
)
    requires
        before.line_lengths() == Seq::<u16>::empty(),
        before.can_layout(constraints),
        before.laid_out_as(after, constraints, size),
        constraints.width.max matches Some(m) ==> total_chars(before.text()) <= (m as int) * (
        i32::MAX as int),
    ensures
        after.drawn(root, bounds, cells) == grid_drawing(
            root,
            bounds,
            cells,
            styled_chars(before.text()),
            constraints.width.max,
            total_chars(before.text()),
        ),
{
    let n = total_chars(before.text());
    lemma_styled_chars_prefix(before.text(), before.text().len() as int);
    assert(before.text().take(before.text().len() as int) =~= before.text());
    assert(after.line_lengths() == wrapped_lines(constraints.width.max, n));
    match constraints.width.max {
        Some(m) => lemma_text_drawing_grid(root, bounds, cells, styled_chars(before.text()), m, n, n),
        None => lemma_text_drawing_line(root, bounds, cells, styled_chars(before.text()), n, n),
    }
}

} // verus!
