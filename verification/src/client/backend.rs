//! How a screen of cells is put on a terminal: the commands a redraw sends,
//! in order, for the terminal driver to carry out.
use vstd::prelude::*;

use super::terminal::{Color, TerminalCell, TerminalSize};
use super::ClientResult;

verus! {

/// A terminal that a screen of cells can be drawn on.
pub trait TerminalBackend {
    /// Puts `buffer`, the screen's cells row by row, on the terminal.
    fn redraw(&mut self, buffer: &[TerminalCell]) -> ClientResult<()>;

    /// The terminal's current size.
    fn size(&self) -> ClientResult<TerminalSize>;
}

/// One step of a redraw.
#[derive(Copy, Clone, Debug, Eq, PartialEq, Structural, Hash)]
pub enum DrawCommand {
    /// Clear the whole screen.
    ClearAll,
    HideCursor,
    ShowCursor,
    MoveTo { column: u16, row: u16 },
    SetBackgroundColor(Color),
    SetForegroundColor(Color),
    /// Write a character at the cursor, which moves on by one.
    Print(char),
}

/// The character a cell shows: a blank where it holds none.
pub open spec fn shown_char(cell: TerminalCell) -> char {
    match cell.character {
        Some(ch) => ch,
        None => ' ',
    }
}

/// The commands that draw `cell` when the colors last set are `fg` and `bg`,
/// and those colors afterwards: a color is set only where it changes, and
/// after the character the background is reset (which is not remembered).
pub open spec fn cell_commands(cell: TerminalCell, fg: Color, bg: Color) -> (
    Seq<DrawCommand>,
    Color,
    Color,
) {
    let new_bg = cell.style.background_color;
    let new_fg = cell.style.foreground_color;
    let set_bg = if new_bg != bg {
        seq![DrawCommand::SetBackgroundColor(new_bg)]
    } else {
        Seq::empty()
    };
    let set_fg = if new_fg != fg {
        seq![DrawCommand::SetForegroundColor(new_fg)]
    } else {
        Seq::empty()
    };
    (
        set_bg + set_fg + seq![
            DrawCommand::Print(shown_char(cell)),
            DrawCommand::SetBackgroundColor(Color::Reset),
        ],
        new_fg,
        new_bg,
    )
}

/// The commands for the `n` cells from `start` on, and the colors after them.
pub open spec fn run_commands(cells: Seq<TerminalCell>, start: int, n: nat, fg: Color, bg: Color) -> (
    Seq<DrawCommand>,
    Color,
    Color,
)
    decreases n,
{
    if n == 0 {
        (Seq::empty(), fg, bg)
    } else {
        let (before, fg1, bg1) = run_commands(cells, start, (n - 1) as nat, fg, bg);
        let (step, fg2, bg2) = cell_commands(cells[start + n - 1], fg1, bg1);
        (before + step, fg2, bg2)
    }
}

/// The commands for the first `rows` rows of a screen `width` cells wide,
/// each starting with a move to its first column, and the colors after them.
pub open spec fn rows_commands(cells: Seq<TerminalCell>, width: nat, rows: nat) -> (
    Seq<DrawCommand>,
    Color,
    Color,
)
    decreases rows,
{
    if rows == 0 {
        (Seq::empty(), Color::Reset, Color::Reset)
    } else {
        let (before, fg, bg) = rows_commands(cells, width, (rows - 1) as nat);
        let (row, fg2, bg2) = run_commands(cells, (rows - 1) * width, width, fg, bg);
        (before + seq![DrawCommand::MoveTo { column: 0, row: (rows - 1) as u16 }] + row, fg2, bg2)
    }
}

/// The whole redraw of `cells` on a screen of `size`, after one of `prev_size`:
/// a clear when the size changed, the cursor hidden, every row, the cursor shown.
pub open spec fn redraw_commands(prev_size: TerminalSize, size: TerminalSize, cells: Seq<TerminalCell>) -> Seq<
    DrawCommand,
> {
    let clear = if size != prev_size {
        seq![DrawCommand::ClearAll]
    } else {
        Seq::empty()
    };
    clear + seq![DrawCommand::HideCursor] + rows_commands(cells, size.width as nat, size.height as nat).0
        + seq![DrawCommand::ShowCursor]
}

/// Drawing cells never clears the screen.
proof fn lemma_run_never_clears(cells: Seq<TerminalCell>, start: int, n: nat, fg: Color, bg: Color)
    ensures
        !run_commands(cells, start, n, fg, bg).0.contains(DrawCommand::ClearAll),
    decreases n,
{
    if n > 0 {
        let (before, fg1, bg1) = run_commands(cells, start, (n - 1) as nat, fg, bg);
        lemma_run_never_clears(cells, start, (n - 1) as nat, fg, bg);
        let (step, _, _) = cell_commands(cells[start + n - 1], fg1, bg1);
        let all = before + step;
        if all.contains(DrawCommand::ClearAll) {
            let i = choose|i: int| 0 <= i < all.len() && all[i] == DrawCommand::ClearAll;
            if i < before.len() {
                assert(before[i] == DrawCommand::ClearAll);
            } else {
                assert(step[i - before.len()] == DrawCommand::ClearAll);
            }
        }
    }
}

/// Drawing rows never clears the screen.
proof fn lemma_rows_never_clear(cells: Seq<TerminalCell>, width: nat, rows: nat)
    ensures
        !rows_commands(cells, width, rows).0.contains(DrawCommand::ClearAll),
    decreases rows,
{
    if rows > 0 {
        let (before, fg, bg) = rows_commands(cells, width, (rows - 1) as nat);
        lemma_rows_never_clear(cells, width, (rows - 1) as nat);
        let (row, _, _) = run_commands(cells, (rows - 1) * width, width, fg, bg);
        lemma_run_never_clears(cells, (rows - 1) * width, width, fg, bg);
        let moved = seq![DrawCommand::MoveTo { column: 0, row: (rows - 1) as u16 }];
        let all = before + moved + row;
        if all.contains(DrawCommand::ClearAll) {
            let i = choose|i: int| 0 <= i < all.len() && all[i] == DrawCommand::ClearAll;
            if i < before.len() {
                assert(before[i] == DrawCommand::ClearAll);
            } else if i > before.len() {
                assert(row[i - before.len() - 1] == DrawCommand::ClearAll);
            }
        }
    }
}

/// The screen is cleared exactly when its size changed since the last redraw:
/// then first of all, and never otherwise.
pub proof fn lemma_redraw_clears_on_resize(prev_size: TerminalSize, size: TerminalSize, cells: Seq<TerminalCell>)
    ensures
        size != prev_size ==> redraw_commands(prev_size, size, cells)[0] == DrawCommand::ClearAll,
        size == prev_size ==> !redraw_commands(prev_size, size, cells).contains(DrawCommand::ClearAll),
{
    let body = rows_commands(cells, size.width as nat, size.height as nat).0;
    lemma_rows_never_clear(cells, size.width as nat, size.height as nat);
    let all = redraw_commands(prev_size, size, cells);
    if size == prev_size {
        assert(all =~= seq![DrawCommand::HideCursor] + body + seq![DrawCommand::ShowCursor]);
        if all.contains(DrawCommand::ClearAll) {
            let i = choose|i: int| 0 <= i < all.len() && all[i] == DrawCommand::ClearAll;
            assert(body[i - 1] == DrawCommand::ClearAll);
        }
    }
}

/// The foreground color in effect after `commands`: the last one set, or
/// `fg` where none is.
pub open spec fn foreground_after(commands: Seq<DrawCommand>, fg: Color) -> Color
    decreases commands.len(),
{
    if commands.len() == 0 {
        fg
    } else {
        match commands.last() {
            DrawCommand::SetForegroundColor(color) => color,
            _ => foreground_after(commands.drop_last(), fg),
        }
    }
}

/// What `commands` print, in order, each character with the foreground color
/// in effect when it is printed, starting from `fg`.
pub open spec fn printed(commands: Seq<DrawCommand>, fg: Color) -> Seq<(char, Color)>
    decreases commands.len(),
{
    if commands.len() == 0 {
        Seq::empty()
    } else {
        let before = printed(commands.drop_last(), fg);
        match commands.last() {
            DrawCommand::Print(ch) => before.push((ch, foreground_after(commands.drop_last(), fg))),
            _ => before,
        }
    }
}

/// A cell's character and foreground color, as it should be printed.
pub open spec fn cell_print(cell: TerminalCell) -> (char, Color) {
    (shown_char(cell), cell.style.foreground_color)
}

proof fn lemma_printed_concat(a: Seq<DrawCommand>, b: Seq<DrawCommand>, fg: Color)
    ensures
        printed(a + b, fg) == printed(a, fg) + printed(b, foreground_after(a, fg)),
        foreground_after(a + b, fg) == foreground_after(b, foreground_after(a, fg)),
    decreases b.len(),
{
    if b.len() == 0 {
        assert(a + b =~= a);
        assert(printed(a, fg) + printed(b, foreground_after(a, fg)) =~= printed(a, fg));
    } else {
        lemma_printed_concat(a, b.drop_last(), fg);
        assert((a + b).drop_last() =~= a + b.drop_last());
        assert((a + b).last() == b.last());
        let f = foreground_after(a, fg);
        if let DrawCommand::Print(ch) = b.last() {
            assert(printed(a, fg) + printed(b, f) =~= (printed(a, fg) + printed(b.drop_last(), f)).push(
                (ch, foreground_after(b.drop_last(), f)),
            ));
        }
    }
}

/// One command on its own.
proof fn lemma_printed_one(command: DrawCommand, fg: Color)
    ensures
        printed(seq![command], fg) == match command {
            DrawCommand::Print(ch) => seq![(ch, fg)],
            _ => Seq::empty(),
        },
        foreground_after(seq![command], fg) == match command {
            DrawCommand::SetForegroundColor(color) => color,
            _ => fg,
        },
{
    let empty = Seq::<DrawCommand>::empty();
    assert(seq![command].drop_last() =~= empty);
    assert(seq![command].last() == command);
    assert(printed(empty, fg) == Seq::<(char, Color)>::empty());
    assert(foreground_after(empty, fg) == fg);
    if let DrawCommand::Print(ch) = command {
        assert(Seq::<(char, Color)>::empty().push((ch, fg)) =~= seq![(ch, fg)]);
    }
}

/// A cell's commands print its character in its foreground color, whatever
/// color was in effect before, and leave that color in effect.
proof fn lemma_cell_printed(cell: TerminalCell, fg: Color, bg: Color)
    ensures
        printed(cell_commands(cell, fg, bg).0, fg) == seq![cell_print(cell)],
        foreground_after(cell_commands(cell, fg, bg).0, fg) == cell_commands(cell, fg, bg).1,
        cell_commands(cell, fg, bg).1 == cell.style.foreground_color,
{
    let new_bg = cell.style.background_color;
    let new_fg = cell.style.foreground_color;
    let set_bg = if new_bg != bg {
        seq![DrawCommand::SetBackgroundColor(new_bg)]
    } else {
        Seq::empty()
    };
    let set_fg = if new_fg != fg {
        seq![DrawCommand::SetForegroundColor(new_fg)]
    } else {
        Seq::empty()
    };
    let print = seq![DrawCommand::Print(shown_char(cell))];
    let reset = seq![DrawCommand::SetBackgroundColor(Color::Reset)];
    assert(cell_commands(cell, fg, bg).0 =~= set_bg + set_fg + print + reset);
    let empty = Seq::<DrawCommand>::empty();
    assert(printed(empty, fg) == Seq::<(char, Color)>::empty());
    if new_bg != bg {
        lemma_printed_one(DrawCommand::SetBackgroundColor(new_bg), fg);
    }
    if new_fg != fg {
        lemma_printed_one(DrawCommand::SetForegroundColor(new_fg), fg);
    }
    lemma_printed_one(DrawCommand::Print(shown_char(cell)), new_fg);
    lemma_printed_one(DrawCommand::SetBackgroundColor(Color::Reset), new_fg);
    lemma_printed_concat(set_bg, set_fg, fg);
    lemma_printed_concat(set_bg + set_fg, print, fg);
    lemma_printed_concat(set_bg + set_fg + print, reset, fg);
    assert(Seq::<(char, Color)>::empty() + Seq::<(char, Color)>::empty() + seq![cell_print(cell)]
        + Seq::<(char, Color)>::empty() =~= seq![cell_print(cell)]);
}

/// The `n` cells from `start` on are printed in order, each in its own
/// foreground color.
proof fn lemma_run_printed(cells: Seq<TerminalCell>, start: int, n: nat, fg: Color, bg: Color)
    requires
        0 <= start,
        start + n <= cells.len(),
    ensures
        printed(run_commands(cells, start, n, fg, bg).0, fg) =~= Seq::new(n, |i: int| cell_print(cells[start + i])),
        foreground_after(run_commands(cells, start, n, fg, bg).0, fg) == run_commands(cells, start, n, fg, bg).1,
    decreases n,
{
    if n == 0 {
        assert(printed(Seq::<DrawCommand>::empty(), fg) == Seq::<(char, Color)>::empty());
    } else {
        lemma_run_printed(cells, start, (n - 1) as nat, fg, bg);
        let (before, fg1, bg1) = run_commands(cells, start, (n - 1) as nat, fg, bg);
        let (step, fg2, bg2) = cell_commands(cells[start + n - 1], fg1, bg1);
        lemma_cell_printed(cells[start + n - 1], fg1, bg1);
        lemma_printed_concat(before, step, fg);
    }
}

/// The first `rows` rows of a screen `width` cells wide are printed cell by
/// cell, row by row, each in its own foreground color.
proof fn lemma_rows_printed(cells: Seq<TerminalCell>, width: nat, rows: nat)
    requires
        rows * width <= cells.len(),
    ensures
        printed(rows_commands(cells, width, rows).0, Color::Reset) =~= Seq::new(
            rows * width,
            |i: int| cell_print(cells[i]),
        ),
        foreground_after(rows_commands(cells, width, rows).0, Color::Reset) == rows_commands(cells, width, rows).1,
    decreases rows,
{
    if rows == 0 {
        assert(printed(Seq::<DrawCommand>::empty(), Color::Reset) == Seq::<(char, Color)>::empty());
    } else {
        assert((rows - 1) * width + width == rows * width) by (nonlinear_arith);
        assert((rows - 1) * width <= rows * width) by (nonlinear_arith);
        lemma_rows_printed(cells, width, (rows - 1) as nat);
        let (before, fg, bg) = rows_commands(cells, width, (rows - 1) as nat);
        let moved = seq![DrawCommand::MoveTo { column: 0, row: (rows - 1) as u16 }];
        let (row, fg2, bg2) = run_commands(cells, (rows - 1) * width, width, fg, bg);
        lemma_printed_one(moved[0], fg);
        lemma_run_printed(cells, (rows - 1) * width, width, fg, bg);
        lemma_printed_concat(before, moved, Color::Reset);
        lemma_printed_concat(before + moved, row, Color::Reset);
    }
}

/// A redraw prints every cell of the screen, row by row, and prints each in
/// its own foreground color: before each character, the foreground color set
/// last (the default where none was set yet in this redraw) is that of its
/// cell.
pub proof fn lemma_redraw_prints_cells(prev_size: TerminalSize, size: TerminalSize, cells: Seq<TerminalCell>)
    requires
        0 <= size.width,
        0 <= size.height,
        size.width * size.height <= cells.len(),
    ensures
        printed(redraw_commands(prev_size, size, cells), Color::Reset) =~= Seq::new(
            (size.width * size.height) as nat,
            |i: int| cell_print(cells[i]),
        ),
{
    let width = size.width as nat;
    let rows = size.height as nat;
    assert(rows * width == size.width * size.height) by (nonlinear_arith)
        requires
            width == size.width,
            rows == size.height,
    ;
    lemma_rows_printed(cells, width, rows);
    let clear = if size != prev_size {
        seq![DrawCommand::ClearAll]
    } else {
        Seq::empty()
    };
    let hide = seq![DrawCommand::HideCursor];
    let body = rows_commands(cells, width, rows).0;
    let show = seq![DrawCommand::ShowCursor];
    assert(printed(Seq::<DrawCommand>::empty(), Color::Reset) == Seq::<(char, Color)>::empty());
    assert(foreground_after(Seq::<DrawCommand>::empty(), Color::Reset) == Color::Reset);
    if size != prev_size {
        lemma_printed_one(DrawCommand::ClearAll, Color::Reset);
    }
    lemma_printed_one(DrawCommand::HideCursor, Color::Reset);
    lemma_printed_concat(clear, hide, Color::Reset);
    lemma_printed_concat(clear + hide, body, Color::Reset);
    lemma_printed_one(DrawCommand::ShowCursor, foreground_after(clear + hide + body, Color::Reset));
    lemma_printed_concat(clear + hide + body, show, Color::Reset);
}

/// Where the cursor stands after `commands`, from `at`: a move puts it where
/// it says, a character moves it one column on.
pub open spec fn cursor_after(commands: Seq<DrawCommand>, at: (int, int)) -> (int, int)
    decreases commands.len(),
{
    if commands.len() == 0 {
        at
    } else {
        let before = cursor_after(commands.drop_last(), at);
        match commands.last() {
            DrawCommand::MoveTo { column, row } => (column as int, row as int),
            DrawCommand::Print(_) => (before.0 + 1, before.1),
            _ => before,
        }
    }
}

/// Where `commands` print their characters, in order, as column and row,
/// the cursor starting at `at`.
pub open spec fn print_places(commands: Seq<DrawCommand>, at: (int, int)) -> Seq<(int, int)>
    decreases commands.len(),
{
    if commands.len() == 0 {
        Seq::empty()
    } else {
        let before = print_places(commands.drop_last(), at);
        match commands.last() {
            DrawCommand::Print(_) => before.push(cursor_after(commands.drop_last(), at)),
            _ => before,
        }
    }
}

proof fn lemma_places_concat(a: Seq<DrawCommand>, b: Seq<DrawCommand>, at: (int, int))
    ensures
        print_places(a + b, at) == print_places(a, at) + print_places(b, cursor_after(a, at)),
        cursor_after(a + b, at) == cursor_after(b, cursor_after(a, at)),
    decreases b.len(),
{
    if b.len() == 0 {
        assert(a + b =~= a);
        assert(print_places(a, at) + print_places(b, cursor_after(a, at)) =~= print_places(a, at));
    } else {
        lemma_places_concat(a, b.drop_last(), at);
        assert((a + b).drop_last() =~= a + b.drop_last());
        assert((a + b).last() == b.last());
        let c = cursor_after(a, at);
        if let DrawCommand::Print(ch) = b.last() {
            assert(print_places(a, at) + print_places(b, c) =~= (print_places(a, at) + print_places(
                b.drop_last(),
                c,
            )).push(cursor_after(b.drop_last(), c)));
        }
    }
}

/// One command on its own.
proof fn lemma_places_one(command: DrawCommand, at: (int, int))
    ensures
        print_places(seq![command], at) == match command {
            DrawCommand::Print(_) => seq![at],
            _ => Seq::empty(),
        },
        cursor_after(seq![command], at) == match command {
            DrawCommand::MoveTo { column, row } => (column as int, row as int),
            DrawCommand::Print(_) => (at.0 + 1, at.1),
            _ => at,
        },
{
    let empty = Seq::<DrawCommand>::empty();
    assert(seq![command].drop_last() =~= empty);
    assert(seq![command].last() == command);
    assert(print_places(empty, at) == Seq::<(int, int)>::empty());
    assert(cursor_after(empty, at) == at);
    if let DrawCommand::Print(_) = command {
        assert(Seq::<(int, int)>::empty().push(at) =~= seq![at]);
    }
}

/// A cell's commands print one character, where the cursor stands, and move
/// the cursor one column on.
proof fn lemma_cell_places(cell: TerminalCell, fg: Color, bg: Color, at: (int, int))
    ensures
        print_places(cell_commands(cell, fg, bg).0, at) == seq![at],
        cursor_after(cell_commands(cell, fg, bg).0, at) == (at.0 + 1, at.1),
{
    let new_bg = cell.style.background_color;
    let new_fg = cell.style.foreground_color;
    let set_bg = if new_bg != bg {
        seq![DrawCommand::SetBackgroundColor(new_bg)]
    } else {
        Seq::empty()
    };
    let set_fg = if new_fg != fg {
        seq![DrawCommand::SetForegroundColor(new_fg)]
    } else {
        Seq::empty()
    };
    let print = seq![DrawCommand::Print(shown_char(cell))];
    let reset = seq![DrawCommand::SetBackgroundColor(Color::Reset)];
    assert(cell_commands(cell, fg, bg).0 =~= set_bg + set_fg + print + reset);
    let empty = Seq::<DrawCommand>::empty();
    assert(print_places(empty, at) == Seq::<(int, int)>::empty());
    assert(cursor_after(empty, at) == at);
    if new_bg != bg {
        lemma_places_one(DrawCommand::SetBackgroundColor(new_bg), at);
    }
    if new_fg != fg {
        lemma_places_one(DrawCommand::SetForegroundColor(new_fg), at);
    }
    lemma_places_one(DrawCommand::Print(shown_char(cell)), at);
    lemma_places_one(DrawCommand::SetBackgroundColor(Color::Reset), (at.0 + 1, at.1));
    lemma_places_concat(set_bg, set_fg, at);
    lemma_places_concat(set_bg + set_fg, print, at);
    lemma_places_concat(set_bg + set_fg + print, reset, at);
    assert(Seq::<(int, int)>::empty() + Seq::<(int, int)>::empty() + seq![at] + Seq::<(int, int)>::empty()
        =~= seq![at]);
}

/// The `n` cells from `start` on are printed side by side from the cursor.
proof fn lemma_run_places(cells: Seq<TerminalCell>, start: int, n: nat, fg: Color, bg: Color, at: (int, int))
    ensures
        print_places(run_commands(cells, start, n, fg, bg).0, at) =~= Seq::new(n, |i: int| (at.0 + i, at.1)),
        cursor_after(run_commands(cells, start, n, fg, bg).0, at) == (at.0 + n, at.1),
    decreases n,
{
    if n == 0 {
        assert(print_places(Seq::<DrawCommand>::empty(), at) == Seq::<(int, int)>::empty());
    } else {
        lemma_run_places(cells, start, (n - 1) as nat, fg, bg, at);
        let (before, fg1, bg1) = run_commands(cells, start, (n - 1) as nat, fg, bg);
        let (step, fg2, bg2) = cell_commands(cells[start + n - 1], fg1, bg1);
        lemma_cell_places(cells[start + n - 1], fg1, bg1, (at.0 + n - 1, at.1));
        lemma_places_concat(before, step, at);
    }
}

/// The first `rows` rows of a screen `width` cells wide are printed each on
/// its own row, from its first column: cell `column` of row `row` at
/// (`column`, `row`).
proof fn lemma_rows_places(cells: Seq<TerminalCell>, width: nat, rows: nat, at: (int, int))
    requires
        rows <= u16::MAX + 1,
    ensures
        print_places(rows_commands(cells, width, rows).0, at).len() == rows * width,
        forall|row: int, column: int|
            0 <= row < rows && 0 <= column < width ==> #[trigger] print_places(
                rows_commands(cells, width, rows).0,
                at,
            )[row * width + column] == (column, row),
    decreases rows,
{
    if rows == 0 {
        assert(print_places(Seq::<DrawCommand>::empty(), at) == Seq::<(int, int)>::empty());
    } else {
        lemma_rows_places(cells, width, (rows - 1) as nat, at);
        let (before, fg, bg) = rows_commands(cells, width, (rows - 1) as nat);
        let moved = seq![DrawCommand::MoveTo { column: 0, row: (rows - 1) as u16 }];
        let (row_cmds, fg2, bg2) = run_commands(cells, (rows - 1) * width, width, fg, bg);
        let after_before = cursor_after(before, at);
        lemma_places_one(moved[0], after_before);
        lemma_run_places(cells, (rows - 1) * width, width, fg, bg, (0, rows - 1));
        lemma_places_concat(before, moved, at);
        lemma_places_concat(before + moved, row_cmds, at);
        let all = print_places(rows_commands(cells, width, rows).0, at);
        let prev = print_places(before, at);
        assert(all =~= prev + Seq::new(width, |i: int| (0 + i, rows - 1)));
        assert((rows - 1) * width + width == rows * width) by (nonlinear_arith);
        assert forall|row: int, column: int| 0 <= row < rows && 0 <= column < width implies #[trigger] all[row
            * width + column] == (column, row) by {
            if row < rows - 1 {
                assert(row * width + column < (rows - 1) * width) by (nonlinear_arith)
                    requires
                        row < rows - 1,
                        column < width,
                ;
                assert(all[row * width + column] == prev[row * width + column]);
            } else {
                assert(row * width + column == (rows - 1) * width + column);
            }
        }
    }
}

/// A redraw prints the cells of the screen in their places: cell `column` of
/// row `row` at column `column` of row `row`, wherever the cursor stood
/// before.
pub proof fn lemma_redraw_places_cells(
    prev_size: TerminalSize,
    size: TerminalSize,
    cells: Seq<TerminalCell>,
    at: (int, int),
)
    requires
        0 <= size.width <= u16::MAX,
        0 <= size.height <= u16::MAX,
    ensures
        print_places(redraw_commands(prev_size, size, cells), at).len() == size.width * size.height,
        forall|row: int, column: int|
            0 <= row < size.height && 0 <= column < size.width ==> #[trigger] print_places(
                redraw_commands(prev_size, size, cells),
                at,
            )[row * size.width + column] == (column, row),
{
    let width = size.width as nat;
    let rows = size.height as nat;
    lemma_rows_places(cells, width, rows, cursor_after(
        (if size != prev_size {
            seq![DrawCommand::ClearAll]
        } else {
            Seq::empty()
        }) + seq![DrawCommand::HideCursor],
        at,
    ));
    let clear = if size != prev_size {
        seq![DrawCommand::ClearAll]
    } else {
        Seq::empty()
    };
    let hide = seq![DrawCommand::HideCursor];
    let body = rows_commands(cells, width, rows).0;
    let show = seq![DrawCommand::ShowCursor];
    assert(print_places(Seq::<DrawCommand>::empty(), at) == Seq::<(int, int)>::empty());
    assert(cursor_after(Seq::<DrawCommand>::empty(), at) == at);
    if size != prev_size {
        lemma_places_one(DrawCommand::ClearAll, at);
    }
    lemma_places_one(DrawCommand::HideCursor, cursor_after(clear, at));
    lemma_places_concat(clear, hide, at);
    lemma_places_concat(clear + hide, body, at);
    lemma_places_one(DrawCommand::ShowCursor, cursor_after(clear + hide + body, at));
    lemma_places_concat(clear + hide + body, show, at);
    let all = print_places(redraw_commands(prev_size, size, cells), at);
    let inner = print_places(body, cursor_after(clear + hide, at));
    assert(all =~= inner);
    assert(rows * width == size.width * size.height) by (nonlinear_arith)
        requires
            width == size.width,
            rows == size.height,
    ;
}

/// Appends the commands for cell `index` of `cells` to `commands`, updating the
/// colors last set.
fn push_cell_commands(
    commands: &mut Vec<DrawCommand>,
    cell: TerminalCell,
    fg: &mut Color,
    bg: &mut Color,
)
    ensures
        ({
            let (step, fg2, bg2) = cell_commands(cell, *old(fg), *old(bg));
            &&& final(commands)@ == old(commands)@ + step
            &&& *final(fg) == fg2
            &&& *final(bg) == bg2
        }),
{
    let ghost start = commands@;
    if cell.style.background_color != *bg {
        commands.push(DrawCommand::SetBackgroundColor(cell.style.background_color));
        *bg = cell.style.background_color;
    }
    if cell.style.foreground_color != *fg {
        commands.push(DrawCommand::SetForegroundColor(cell.style.foreground_color));
        *fg = cell.style.foreground_color;
    }
    let ch = match cell.character {
        Some(ch) => ch,
        None => ' ',
    };
    commands.push(DrawCommand::Print(ch));
    commands.push(DrawCommand::SetBackgroundColor(Color::Reset));
    proof {
        let (step, fg2, bg2) = cell_commands(cell, *old(fg), *old(bg));
        assert(commands@ =~= start + step);
    }
}

/// The commands that put `buffer` on a screen of `size`, the screen having last
/// been drawn at `prev_size`, which becomes `size`.
pub fn plan_redraw(prev_size: &mut TerminalSize, size: TerminalSize, buffer: &[TerminalCell]) -> (r: Vec<
    DrawCommand,
>)
    requires
        0 <= size.width <= u16::MAX,
        0 <= size.height <= u16::MAX,
        size.width * size.height <= buffer@.len(),
    ensures
        r@ == redraw_commands(*old(prev_size), size, buffer@),
        *final(prev_size) == size,
{
    let buffer_len = buffer.len();
    let mut commands: Vec<DrawCommand> = Vec::new();
    if size.width != prev_size.width || size.height != prev_size.height {
        *prev_size = size;
        commands.push(DrawCommand::ClearAll);
    }
    commands.push(DrawCommand::HideCursor);
    let ghost head = commands@;
    let width = size.width as u16;
    let height = size.height as u16;
    let mut fg = Color::Reset;
    let mut bg = Color::Reset;
    let mut row: u16 = 0;
    while row < height
        invariant
            0 <= size.width <= u16::MAX,
            0 <= size.height <= u16::MAX,
            width == size.width,
            height == size.height,
            size.width * size.height <= buffer@.len(),
            buffer_len == buffer@.len(),
            row <= height,
            ({
                let (done, fg_now, bg_now) = rows_commands(buffer@, width as nat, row as nat);
                &&& commands@ == head + done
                &&& fg == fg_now
                &&& bg == bg_now
            }),
        decreases height - row,
    {
        let ghost before = commands@;
        commands.push(DrawCommand::MoveTo { column: 0, row });
        let ghost row_start = commands@;
        let ghost fg_start = fg;
        let ghost bg_start = bg;
        proof {
            assert(row * width + width <= width * height) by (nonlinear_arith)
                requires
                    row < height,
                    0 <= width,
            ;
        }
        let base = row as usize * width as usize;
        let mut column: u16 = 0;
        while column < width
            invariant
                row < height,
                0 <= size.width <= u16::MAX,
                width == size.width,
                height == size.height,
                size.width * size.height <= buffer@.len(),
                row * width + width <= buffer@.len(),
                buffer_len == buffer@.len(),
                base == row * width,
                column <= width,
                ({
                    let (done, fg_now, bg_now) = run_commands(
                        buffer@,
                        row * width,
                        column as nat,
                        fg_start,
                        bg_start,
                    );
                    &&& commands@ == row_start + done
                    &&& fg == fg_now
                    &&& bg == bg_now
                }),
            decreases width - column,
        {
            let cell = buffer[base + column as usize];
            let ghost prior = commands@;
            push_cell_commands(&mut commands, cell, &mut fg, &mut bg);
            proof {
                assert(commands@ =~= row_start + run_commands(
                    buffer@,
                    row * width,
                    (column + 1) as nat,
                    fg_start,
                    bg_start,
                ).0);
            }
            column = column + 1;
        }
        proof {
            let (done, _, _) = rows_commands(buffer@, width as nat, row as nat);
            assert(before == head + done);
            assert(commands@ =~= head + rows_commands(buffer@, width as nat, (row + 1) as nat).0);
        }
        row = row + 1;
    }
    commands.push(DrawCommand::ShowCursor);
    proof {
        assert(commands@ =~= redraw_commands(*old(prev_size), size, buffer@));
    }
    commands
}

} // verus!
