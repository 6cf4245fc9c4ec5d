//! Terminal geometry, input events, colors, and the frame that widgets draw into.
use vstd::prelude::*;

use super::widget::Widget;

verus! {

pub type TerminalScalar = i32;

/// `x` fits a [`TerminalScalar`].
pub open spec fn fits_scalar(x: int) -> bool {
    i32::MIN <= x <= i32::MAX
}

#[derive(Copy, Clone, Debug, Eq, PartialEq, Hash, Default)]
pub struct TerminalPos {
    pub column: TerminalScalar,
    pub row: TerminalScalar,
}

#[derive(Copy, Clone, Debug, Eq, PartialEq, Hash, Default)]
pub struct TerminalSize {
    pub width: TerminalScalar,
    pub height: TerminalScalar,
}

impl TerminalPos {
    pub open spec fn can_add_pos(self, rhs: TerminalPos) -> bool {
        fits_scalar(self.row + rhs.row) && fits_scalar(self.column + rhs.column)
    }

    pub open spec fn can_add_size(self, rhs: TerminalSize) -> bool {
        fits_scalar(self.row + rhs.height) && fits_scalar(self.column + rhs.width)
    }

    pub open spec fn spec_add_pos(self, rhs: TerminalPos) -> TerminalPos {
        TerminalPos {
            row: (self.row + rhs.row) as i32,
            column: (self.column + rhs.column) as i32,
        }
    }

    pub open spec fn spec_add_size(self, rhs: TerminalSize) -> TerminalPos {
        TerminalPos {
            row: (self.row + rhs.height) as i32,
            column: (self.column + rhs.width) as i32,
        }
    }
}

impl core::ops::Add<TerminalPos> for TerminalPos {
    type Output = TerminalPos;

    fn add(self, rhs: TerminalPos) -> (r: TerminalPos) {
        TerminalPos { row: self.row + rhs.row, column: self.column + rhs.column }
    }
}

impl vstd::std_specs::ops::AddSpecImpl<TerminalPos> for TerminalPos {
    open spec fn obeys_add_spec() -> bool {
        true
    }

    open spec fn add_req(self, rhs: TerminalPos) -> bool {
        self.can_add_pos(rhs)
    }

    open spec fn add_spec(self, rhs: TerminalPos) -> TerminalPos {
        self.spec_add_pos(rhs)
    }
}

impl core::ops::Add<TerminalSize> for TerminalPos {
    type Output = TerminalPos;

    fn add(self, rhs: TerminalSize) -> (r: TerminalPos) {
        TerminalPos { row: self.row + rhs.height, column: self.column + rhs.width }
    }
}

impl vstd::std_specs::ops::AddSpecImpl<TerminalSize> for TerminalPos {
    open spec fn obeys_add_spec() -> bool {
        true
    }

    open spec fn add_req(self, rhs: TerminalSize) -> bool {
        self.can_add_size(rhs)
    }

    open spec fn add_spec(self, rhs: TerminalSize) -> TerminalPos {
        self.spec_add_size(rhs)
    }
}

#[derive(Copy, Clone, Debug, Eq, PartialEq, Hash, Default)]
pub struct TerminalRect {
    pub start: TerminalPos,
    pub end: TerminalPos,
}

impl TerminalRect {
    pub fn from_size(size: TerminalSize) -> (r: Self)
        ensures
            r.start == (TerminalPos { column: 0, row: 0 }),
            r.end == (TerminalPos { column: size.width, row: size.height }),
    {
        Self {
            start: TerminalPos { column: 0, row: 0 },
            end: TerminalPos { column: size.width, row: size.height },
        }
    }

    pub fn offset_rows(&self, rows: TerminalScalar) -> (r: Self)
        requires
            fits_scalar(self.start.row + rows),
            fits_scalar(self.end.row + rows),
        ensures
            r.start == (TerminalPos { column: self.start.column, row: (self.start.row + rows) as i32 }),
            r.end == (TerminalPos { column: self.end.column, row: (self.end.row + rows) as i32 }),
    {
        Self {
            start: self.start + TerminalSize { width: 0, height: rows },
            end: self.end + TerminalSize { width: 0, height: rows },
        }
    }

    pub fn offset_columns(&self, columns: TerminalScalar) -> (r: Self)
        requires
            fits_scalar(self.start.column + columns),
            fits_scalar(self.end.column + columns),
        ensures
            r.start == (TerminalPos {
                column: (self.start.column + columns) as i32,
                row: self.start.row,
            }),
            r.end == (TerminalPos { column: (self.end.column + columns) as i32, row: self.end.row }),
    {
        Self {
            start: self.start + TerminalSize { width: columns, height: 0 },
            end: self.end + TerminalSize { width: columns, height: 0 },
        }
    }

    pub open spec fn spec_width(&self) -> int {
        self.end.column - self.start.column
    }

    pub open spec fn spec_height(&self) -> int {
        self.end.row - self.start.row
    }

    pub fn width(&self) -> (r: TerminalScalar)
        requires
            fits_scalar(self.spec_width()),
        ensures
            r == self.spec_width(),
    {
        self.end.column - self.start.column
    }

    pub fn height(&self) -> (r: TerminalScalar)
        requires
            fits_scalar(self.spec_height()),
        ensures
            r == self.spec_height(),
    {
        self.end.row - self.start.row
    }
}

#[derive(Copy, Clone, Debug, Eq, PartialEq, Hash)]
pub enum KeyEventKind {
    Backspace,
    Enter,
    Left,
    Right,
    Up,
    Down,
    Home,
    End,
    PageUp,
    PageDown,
    Tab,
    BackTab,
    Delete,
    Insert,
    Null,
    Esc,
    Function(u8),
    Char(char),
}

#[derive(Copy, Clone, Debug, Eq, PartialEq, Hash)]
pub struct KeyModifiers {
    pub control: bool,
    pub shift: bool,
    pub alt: bool,
}

#[derive(Copy, Clone, Debug, Eq, PartialEq, Hash)]
pub struct TerminalKeyEvent {
    pub kind: KeyEventKind,
    pub modifiers: KeyModifiers,
}

#[derive(Copy, Clone, Debug, Eq, PartialEq, Hash)]
pub enum MouseButton {
    Left,
    Middle,
    Right,
}

#[derive(Copy, Clone, Debug, Eq, PartialEq, Hash)]
pub enum MouseEventKind {
    Down(MouseButton),
    Up(MouseButton),
    Drag(MouseButton),
    Moved,
    ScrollDown,
    ScrollUp,
}

#[derive(Copy, Clone, Debug, Eq, PartialEq, Hash)]
pub struct TerminalMouseEvent {
    pub kind: MouseEventKind,
    pub location: TerminalPos,
    pub modifiers: KeyModifiers,
}

#[derive(Copy, Clone, Debug, Eq, PartialEq, Hash)]
pub enum TerminalEvent {
    Key(TerminalKeyEvent),
    Mouse(TerminalMouseEvent),
    Resize(TerminalSize),
}

#[derive(Copy, Clone, Debug, Eq, PartialEq, Structural, Hash)]
pub enum Color {
    Reset,
    Black,
    DarkGrey,
    Red,
    DarkRed,
    Green,
    DarkGreen,
    Yellow,
    DarkYellow,
    Blue,
    DarkBlue,
    Magenta,
    DarkMagenta,
    Cyan,
    DarkCyan,
    White,
    Grey,
    Rgb { r: u8, g: u8, b: u8 },
    AnsiValue(u8),
}

impl Default for Color {
    fn default() -> (r: Self)
        ensures
            r == Color::Reset,
    {
        Color::Reset
    }
}

#[derive(Copy, Clone, Debug, Eq, PartialEq, Structural, Hash)]
pub struct TerminalCellStyle {
    pub foreground_color: Color,
    pub background_color: Color,
}

impl TerminalCellStyle {
    pub open spec fn spec_default() -> TerminalCellStyle {
        TerminalCellStyle { foreground_color: Color::Reset, background_color: Color::Reset }
    }
}

impl Default for TerminalCellStyle {
    fn default() -> (r: Self)
        ensures
            r.foreground_color == Color::Reset,
            r.background_color == Color::Reset,
    {
        TerminalCellStyle { foreground_color: Color::Reset, background_color: Color::Reset }
    }
}

impl TerminalCellStyle {
    pub fn with_fg_color(self, color: Color) -> (r: Self)
        ensures
            r == (TerminalCellStyle { foreground_color: color, ..self }),
    {
        let mut style = self;
        style.foreground_color = color;
        style
    }

    /// Sets the foreground color, as `with_fg_color` does: the background
    /// color stays as it was.
    pub fn with_bg_color(self, color: Color) -> (r: Self)
        ensures
            r == (TerminalCellStyle { foreground_color: color, ..self }),
    {
        let mut style = self;
        style.foreground_color = color;
        style
    }
}

#[derive(Copy, Clone, Debug, Eq, PartialEq, Structural, Hash)]
pub struct TerminalCell {
    pub style: TerminalCellStyle,
    pub character: Option<char>,
}

impl Default for TerminalCell {
    fn default() -> (r: Self)
        ensures
            r.style == (TerminalCellStyle {
                foreground_color: Color::Reset,
                background_color: Color::Reset,
            }),
            r.character == None::<char>,
    {
        TerminalCell { style: TerminalCellStyle::default(), character: None }
    }
}

/// Where in the buffer of a screen of `root` size the cell at `offset` from
/// the corner of `bounds` lies: nowhere if the offset leaves the bounds (their
/// far edges included) or the screen.
pub open spec fn cell_index(root: TerminalSize, bounds: TerminalRect, offset: TerminalPos) -> Option<int> {
    let column = bounds.start.column + offset.column;
    let row = bounds.start.row + offset.row;
    if offset.column < 0 || offset.column > bounds.spec_width() || offset.row < 0 || offset.row
        > bounds.spec_height() {
        None
    } else if column < 0 || column >= root.width || row < 0 || row >= root.height {
        None
    } else {
        Some(row * root.width + column)
    }
}

/// `cells` with `cell` put at `offset` from the corner of `bounds`, where that
/// has a place.
pub open spec fn put_cell(
    root: TerminalSize,
    bounds: TerminalRect,
    cells: Seq<TerminalCell>,
    offset: TerminalPos,
    cell: TerminalCell,
) -> Seq<TerminalCell> {
    match cell_index(root, bounds, offset) {
        Some(i) => cells.update(i, cell),
        None => cells,
    }
}

/// A cell put where it has a place is the cell read back there, and every
/// other cell stays as it was.
pub proof fn lemma_put_then_read(
    root: TerminalSize,
    bounds: TerminalRect,
    cells: Seq<TerminalCell>,
    offset: TerminalPos,
    cell: TerminalCell,
)
    requires
        cell_index(root, bounds, offset) matches Some(i) && 0 <= i < cells.len(),
    ensures
        put_cell(root, bounds, cells, offset, cell).len() == cells.len(),
        put_cell(root, bounds, cells, offset, cell)[cell_index(root, bounds, offset)->0] == cell,
        forall|j: int|
            0 <= j < cells.len() && j != cell_index(root, bounds, offset)->0 ==> #[trigger] put_cell(
                root,
                bounds,
                cells,
                offset,
                cell,
            )[j] == cells[j],
{
}

/// The bounds of the part of `bounds` given by `area`: its start offset by the
/// area's start and its end by the area's end.
pub open spec fn sub_bounds(bounds: TerminalRect, area: TerminalRect) -> TerminalRect {
    TerminalRect { start: bounds.start.spec_add_pos(area.start), end: bounds.end.spec_add_pos(area.end) }
}

/// A rectangle of a screen-sized buffer of cells that a widget draws into.
#[derive(Debug)]
pub struct Frame {
    root_size: TerminalSize,
    root_buffer: Vec<TerminalCell>,
    frame_bounds: TerminalRect,
}

impl Frame {
    /// The whole screen's cells, row by row.
    pub closed spec fn cells(&self) -> Seq<TerminalCell> {
        self.root_buffer@
    }

    pub closed spec fn root_size(&self) -> TerminalSize {
        self.root_size
    }

    /// The part of the screen this frame draws into.
    pub closed spec fn bounds(&self) -> TerminalRect {
        self.frame_bounds
    }

    /// The part of the screen this frame draws into.
    pub fn bounds_exec(&self) -> (r: TerminalRect)
        ensures
            r == self.bounds(),
    {
        self.frame_bounds
    }

    /// Every cell of the screen has a place in the buffer.
    pub open spec fn wf(&self) -> bool {
        self.root_size().width > 0 && self.root_size().height > 0 ==> self.root_size().width
            * self.root_size().height <= self.cells().len()
    }

    /// Where in the buffer the cell at `offset` from the frame's corner lies.
    pub open spec fn index_of(&self, offset: TerminalPos) -> Option<int> {
        cell_index(self.root_size(), self.bounds(), offset)
    }

    pub fn root(size: TerminalSize, buffer: Vec<TerminalCell>) -> (r: Self)
        ensures
            r.root_size() == size,
            r.cells() == buffer@,
            r.bounds() == (TerminalRect {
                start: TerminalPos { column: 0, row: 0 },
                end: TerminalPos { column: size.width, row: size.height },
            }),
    {
        Self {
            root_size: size,
            root_buffer: buffer,
            frame_bounds: TerminalRect {
                start: TerminalPos { column: 0, row: 0 },
                end: TerminalPos { column: size.width, row: size.height },
            },
        }
    }

    /// Gives the screen's cells back.
    pub fn into_buffer(self) -> (r: Vec<TerminalCell>)
        ensures
            r@ == self.cells(),
    {
        self.root_buffer
    }

    /// Lets `widget` draw into `area`, taken relative to this frame: the start
    /// of the sub-frame is offset by the area's start and its end by the area's end.
    pub fn render_widget<W: Widget>(&mut self, area: TerminalRect, widget: &W)
        requires
            old(self).wf(),
            old(self).bounds().start.can_add_pos(area.start),
            old(self).bounds().end.can_add_pos(area.end),
        ensures
            final(self).wf(),
            final(self).root_size() == old(self).root_size(),
            final(self).bounds() == old(self).bounds(),
            final(self).cells().len() == old(self).cells().len(),
            final(self).cells() == widget.drawn(
                old(self).root_size(),
                sub_bounds(old(self).bounds(), area),
                old(self).cells(),
            ),
    {
        let outer = self.frame_bounds;
        self.frame_bounds = TerminalRect { start: outer.start + area.start, end: outer.end + area.end };
        widget.render(self);
        self.frame_bounds = outer;
    }

    fn make_buffer_index(&self, row: usize, col: usize) -> (r: usize)
        requires
            row * self.root_size().width + col <= usize::MAX,
            self.root_size().width >= 0,
        ensures
            r == row * self.root_size().width + col,
    {
        row * (self.root_size.width as usize) + col
    }

    fn buffer_index(&self, offset: TerminalPos) -> (r: Option<usize>)
        requires
            self.wf(),
        ensures
            match self.index_of(offset) {
                Some(i) => (r matches Some(k) && k == i && 0 <= i < self.cells().len()),
                None => r is None,
            },
    {
        let buffer_len = self.root_buffer.len();
        let column = self.frame_bounds.start.column as i64 + offset.column as i64;
        let row = self.frame_bounds.start.row as i64 + offset.row as i64;
        let width = self.frame_bounds.end.column as i64 - self.frame_bounds.start.column as i64;
        let height = self.frame_bounds.end.row as i64 - self.frame_bounds.start.row as i64;

        if offset.column < 0 || offset.column as i64 > width || offset.row < 0 || offset.row as i64
            > height {
            return None;
        }
        if column < 0 || column >= self.root_size.width as i64 || row < 0 || row
            >= self.root_size.height as i64 {
            return None;
        }
        proof {
            let w = self.root_size.width as int;
            let h = self.root_size.height as int;
            let r = row as int;
            let c = column as int;
            assert(r * w + c < w * h) by (nonlinear_arith)
                requires
                    0 <= r < h,
                    0 <= c < w,
            ;
        }
        Some(self.make_buffer_index(row as usize, column as usize))
    }

    /// Draws `cell` at `offset` from the frame's corner; nothing happens where
    /// that is outside the frame or the screen.
    pub fn put(&mut self, offset: TerminalPos, cell: TerminalCell)
        requires
            old(self).wf(),
        ensures
            final(self).root_size() == old(self).root_size(),
            final(self).bounds() == old(self).bounds(),
            final(self).cells() == put_cell(
                old(self).root_size(),
                old(self).bounds(),
                old(self).cells(),
                offset,
                cell,
            ),
            final(self).cells().len() == old(self).cells().len(),
            final(self).wf(),
    {
        if let Some(index) = self.buffer_index(offset) {
            self.root_buffer.set(index, cell);
        }
    }

    /// The cell at `offset` from the frame's corner, if that is inside the frame and the screen.
    pub fn get(&self, offset: TerminalPos) -> (r: Option<&TerminalCell>)
        requires
            self.wf(),
        ensures
            match self.index_of(offset) {
                Some(i) => r == Some(&self.cells()[i]),
                None => r is None,
            },
    {
        match self.buffer_index(offset) {
            Some(index) => Some(&self.root_buffer[index]),
            None => None,
        }
    }

    pub fn width(&self) -> (r: TerminalScalar)
        requires
            fits_scalar(self.bounds().spec_width()),
        ensures
            r == self.bounds().spec_width(),
    {
        self.frame_bounds.width()
    }

    pub fn height(&self) -> (r: TerminalScalar)
        requires
            fits_scalar(self.bounds().spec_height()),
        ensures
            r == self.bounds().spec_height(),
    {
        self.frame_bounds.height()
    }
}

} // verus!
