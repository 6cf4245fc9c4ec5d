//! Widgets that arrange other widgets: in wrapped rows, or stacked from the bottom.
use vstd::prelude::*;

use super::super::terminal::{
    fits_scalar, sub_bounds, Frame, TerminalCell, TerminalPos, TerminalRect, TerminalSize,
};
use super::{
    apply_constraints, clamp_extent, clamp_to_u16, constrained_size, AxisConstraint,
    BoxConstraints, Widget,
};

verus! {

/// Placing children of `sizes` left to right, starting a new row when the
/// next child would pass the maximum width: the column and row where the next
/// child would go, the height of the current row, and the widest and tallest
/// extent reached.
pub open spec fn wrapped_extent(sizes: Seq<TerminalSize>, max: AxisConstraint) -> (int, int, int, int, int)
    decreases sizes.len(),
{
    if sizes.len() == 0 {
        (0, 0, 0, 0, 0)
    } else {
        let (column, row, row_height, max_width, max_height) = wrapped_extent(sizes.drop_last(), max);
        let size = sizes.last();
        let wraps = max.spec_overflows(size.width + column);
        let column1 = if wraps {
            0
        } else {
            column
        };
        let row1 = if wraps {
            row + row_height
        } else {
            row
        };
        let row_height1 = if wraps {
            0
        } else {
            row_height
        };
        let right = column1 + size.width;
        let bottom = row1 + size.height;
        (
            right,
            row1,
            if row_height1 > size.height {
                row_height1
            } else {
                size.height as int
            },
            if max_width > right {
                max_width
            } else {
                right
            },
            if max_height > bottom {
                max_height
            } else {
                bottom
            },
        )
    }
}

/// Every size in `sizes` fits a `u16`.
pub open spec fn sizes_fit(sizes: Seq<TerminalSize>) -> bool {
    forall|i: int|
        0 <= i < sizes.len() ==> 0 <= (#[trigger] sizes[i]).width <= u16::MAX && 0 <= sizes[i].height
            <= u16::MAX
}

pub proof fn lemma_wrapped_extent_bounds(sizes: Seq<TerminalSize>, max: AxisConstraint)
    requires
        sizes_fit(sizes),
    ensures
        ({
            let (column, row, row_height, max_width, max_height) = wrapped_extent(sizes, max);
            &&& 0 <= column <= sizes.len() * 0x10000
            &&& 0 <= row <= sizes.len() * 0x10000
            &&& 0 <= row_height <= 0xffff
            &&& row + row_height <= sizes.len() * 0x10000
            &&& 0 <= max_width <= sizes.len() * 0x10000
            &&& 0 <= max_height <= sizes.len() * 0x10000
        }),
    decreases sizes.len(),
{
    if sizes.len() > 0 {
        let init = sizes.drop_last();
        assert(sizes_fit(init)) by {
            assert forall|i: int| 0 <= i < init.len() implies 0 <= (#[trigger] init[i]).width <= u16::MAX
                && 0 <= init[i].height <= u16::MAX by {
                assert(init[i] == sizes[i]);
            }
        }
        assert(sizes.last() == sizes[sizes.len() - 1]);
        lemma_wrapped_extent_bounds(init, max);
    }
}

#[derive(Clone, Debug)]
pub struct WrappedListWidget<W> {
    children: Vec<W>,
    computed_child_sizes: Vec<TerminalSize>,
    computed_size: Option<TerminalSize>,
}

impl<W> WrappedListWidget<W> {
    pub fn new(children: Vec<W>) -> (r: Self)
        ensures
            r.children() == children@,
            r.child_sizes() == Seq::<TerminalSize>::empty(),
            r.computed_size() == None::<TerminalSize>,
    {
        Self { children, computed_child_sizes: Vec::new(), computed_size: None }
    }

    pub closed spec fn children(&self) -> Seq<W> {
        self.children@
    }

    /// The sizes the children were given, in the order they were laid out.
    pub closed spec fn child_sizes(&self) -> Seq<TerminalSize> {
        self.computed_child_sizes@
    }

    pub closed spec fn computed_size(&self) -> Option<TerminalSize> {
        self.computed_size
    }
}

impl<W: Widget> Widget for WrappedListWidget<W> {
    /// Every child can be laid out under the same constraints.
    open spec fn can_layout(&self, constraints: BoxConstraints) -> bool {
        forall|i: int|
            0 <= i < self.children().len() ==> (#[trigger] self.children()[i]).can_layout(
                constraints,
            )
    }

    /// Each child laid out under the same constraints, its size appended to
    /// those already recorded; the extent of the children placed left to
    /// right, wrapping to a new row when a child would pass the maximum width
    /// (held at `u16::MAX`), brought within the constraints.
    open spec fn laid_out_as(&self, after: Self, constraints: BoxConstraints, size: TerminalSize) -> bool {
        let old_count = self.child_sizes().len();
        let sizes = after.child_sizes().skip(old_count as int);
        let (_, _, _, max_width, max_height) = wrapped_extent(sizes, constraints.width);
        &&& after.children().len() == self.children().len()
        &&& after.child_sizes().len() == old_count + self.children().len()
        &&& after.child_sizes().take(old_count as int) == self.child_sizes()
        &&& forall|k: int|
            0 <= k < self.children().len() ==> (#[trigger] self.children()[k]).laid_out_as(
                after.children()[k],
                constraints,
                sizes[k],
            )
        &&& sizes_fit(sizes)
        &&& size == constrained_size(constraints, clamp_extent(max_width), clamp_extent(max_height))
        &&& after.computed_size() == Some(size)
    }

    fn layout(&mut self, constraints: BoxConstraints) -> (r: TerminalSize) {
        let mut column: i128 = 0;
        let mut row: i128 = 0;
        let mut max_row_height: i128 = 0;
        let mut max_width: i128 = 0;
        let mut max_height: i128 = 0;
        let ghost base = self.computed_child_sizes@;
        let mut i: usize = 0;
        proof {
            assert(self.computed_child_sizes@.skip(base.len() as int) =~= Seq::<TerminalSize>::empty());
            assert forall|k: int| 0 <= k < old(self).children@.len() implies (#[trigger] old(
                self,
            ).children@[k]).can_layout(constraints) by {
                assert(old(self).children()[k] == old(self).children@[k]);
            }
        }
        while i < self.children.len()
            invariant
                i <= self.children@.len(),
                self.children@.len() == old(self).children@.len(),
                forall|k: int|
                    i <= k < self.children@.len() ==> #[trigger] self.children@[k] == old(
                        self,
                    ).children@[k],
                forall|k: int|
                    0 <= k < i ==> (#[trigger] old(self).children@[k]).laid_out_as(
                        self.children@[k],
                        constraints,
                        self.computed_child_sizes@[base.len() + k],
                    ),
                forall|k: int|
                    0 <= k < old(self).children@.len() ==> (#[trigger] old(self).children@[k]).can_layout(
                        constraints,
                    ),
                self.computed_child_sizes@.len() == base.len() + i,
                self.computed_child_sizes@.take(base.len() as int) == base,
                sizes_fit(self.computed_child_sizes@.skip(base.len() as int)),
                ({
                    let (c, r, rh, mw, mh) = wrapped_extent(
                        self.computed_child_sizes@.skip(base.len() as int),
                        constraints.width,
                    );
                    &&& column == c
                    &&& row == r
                    &&& max_row_height == rh
                    &&& max_width == mw
                    &&& max_height == mh
                }),
            decreases self.children@.len() - i,
        {
            let ghost sizes = self.computed_child_sizes@.skip(base.len() as int);
            proof {
                lemma_wrapped_extent_bounds(sizes, constraints.width);
                assert(i * 0x10000 <= 0x1_0000_0000_0000_0000 * 0x10000) by (nonlinear_arith)
                    requires
                        i <= 0x1_0000_0000_0000_0000,
                ;
            }
            let child_size = self.children[i].layout(constraints);
            self.computed_child_sizes.push(child_size);
            proof {
                let new_sizes = self.computed_child_sizes@.skip(base.len() as int);
                assert(new_sizes =~= sizes.push(child_size));
                assert(new_sizes.drop_last() =~= sizes);
                assert(self.computed_child_sizes@.take(base.len() as int) =~= base);
                assert(sizes_fit(new_sizes)) by {
                    assert forall|k: int| 0 <= k < new_sizes.len() implies 0 <= (
                    #[trigger] new_sizes[k]).width <= u16::MAX && 0 <= new_sizes[k].height
                        <= u16::MAX by {
                        if k < sizes.len() {
                            assert(new_sizes[k] == sizes[k]);
                        }
                    }
                }
            }

            if constraints.width.overflows_extent(child_size.width as i128 + column) {
                column = 0;
                row = row + max_row_height;
                max_row_height = 0;
            }
            let right = column + child_size.width as i128;
            let bottom = row + child_size.height as i128;
            if right > max_width {
                max_width = right;
            }
            if bottom > max_height {
                max_height = bottom;
            }
            column = right;
            if child_size.height as i128 > max_row_height {
                max_row_height = child_size.height as i128;
            }
            i = i + 1;
        }
        let bounds = apply_constraints(
            constraints,
            clamp_to_u16(max_width),
            clamp_to_u16(max_height),
        );
        self.computed_size = Some(bounds);
        bounds
    }

    /// The children drawn in the places [`wrapped_area`] gives them; nothing
    /// before a layout.
    open spec fn drawn(&self, root: TerminalSize, bounds: TerminalRect, cells: Seq<TerminalCell>) -> Seq<
        TerminalCell,
    > {
        match self.computed_size() {
            None => cells,
            Some(size) => wrapped_drawing(
                self.children(),
                self.child_sizes(),
                size.width as int,
                root,
                bounds,
                cells,
                drawable_count(self.children().len(), self.child_sizes().len()),
            ).0,
        }
    }

    /// Draws the children in the places that layout gave them; nothing is
    /// drawn before a layout, and drawing stops where a place would not fit
    /// the scalar type.
    fn render(&self, frame: &mut Frame) {
        let total_width = match self.computed_size {
            Some(size) => size.width as i64,
            None => {
                return ;
            },
        };
        let ghost root = frame.root_size();
        let ghost bounds = frame.bounds();
        let ghost start_cells = frame.cells();
        let mut column: i64 = 0;
        let mut row: i64 = 0;
        let mut max_row_height: i64 = 0;
        let count = if self.children.len() < self.computed_child_sizes.len() {
            self.children.len()
        } else {
            self.computed_child_sizes.len()
        };
        let mut i: usize = 0;
        while i < count
            invariant
                count == drawable_count(self.children@.len(), self.computed_child_sizes@.len()),
                count <= self.children@.len(),
                count <= self.computed_child_sizes@.len(),
                i <= count,
                self.computed_size matches Some(size) && total_width == size.width,
                frame.wf(),
                frame.root_size() == root,
                frame.bounds() == bounds,
                frame.cells().len() == start_cells.len(),
                root == old(frame).root_size(),
                bounds == old(frame).bounds(),
                start_cells == old(frame).cells(),
                i32::MIN <= column <= i32::MAX,
                i32::MIN <= row <= i32::MAX,
                i32::MIN <= max_row_height <= i32::MAX,
                ({
                    let (drawn, stopped) = wrapped_drawing(
                        self.children@,
                        self.computed_child_sizes@,
                        total_width as int,
                        root,
                        bounds,
                        start_cells,
                        i as nat,
                    );
                    &&& frame.cells() == drawn
                    &&& !stopped
                }),
                (column as int, row as int, max_row_height as int) == wrapped_walk(
                    self.computed_child_sizes@,
                    total_width as int,
                    i as nat,
                ),
            decreases count - i,
        {
            let size = self.computed_child_sizes[i];
            proof {
                lemma_wrapped_drawing_stopped(
                    self.children@,
                    self.computed_child_sizes@,
                    total_width as int,
                    root,
                    bounds,
                    start_cells,
                    (i + 1) as nat,
                    count as nat,
                );
            }
            if column + size.width as i64 > total_width {
                column = 0;
                if row + max_row_height > i32::MAX as i64 || row + max_row_height < i32::MIN as i64 {
                    return ;
                }
                row = row + max_row_height;
                max_row_height = 0;
            }
            let end_column = column + size.width as i64;
            let end_row = row + size.height as i64;
            if end_column > i32::MAX as i64 || end_column < i32::MIN as i64 || end_row
                > i32::MAX as i64 || end_row < i32::MIN as i64 {
                return ;
            }
            let start = TerminalPos { column: column as i32, row: row as i32 };
            let end = TerminalPos { column: end_column as i32, row: end_row as i32 };
            if !frame_can_offset(frame, start, end) {
                return ;
            }
            frame.render_widget(TerminalRect { start, end }, &self.children[i]);
            column = end_column;
            if size.height as i64 > max_row_height {
                max_row_height = size.height as i64;
            }
            i = i + 1;
        }
    }
}

/// How many children a list draws: as many as have sizes recorded.
pub open spec fn drawable_count(children: nat, sizes: nat) -> nat {
    if children < sizes {
        children
    } else {
        sizes
    }
}

/// The start of the place a child of `size` gets when the cursor stands at
/// `walk` (column, row, height of the current row) in a wrapped list
/// `total_width` wide: the cursor itself, or the start of the next row when
/// the child would pass the total width.
pub open spec fn wrapped_start(walk: (int, int, int), size: TerminalSize, total_width: int) -> (int, int) {
    let (column, row, row_height) = walk;
    if column + size.width > total_width {
        (0, row + row_height)
    } else {
        (column, row)
    }
}

/// The cursor of a wrapped list `total_width` wide after placing the first
/// `n` of `sizes`: the column where the next child would go, the row of the
/// current row and the height of its tallest child.
pub open spec fn wrapped_walk(sizes: Seq<TerminalSize>, total_width: int, n: nat) -> (int, int, int)
    decreases n,
{
    if n == 0 {
        (0, 0, 0)
    } else {
        let walk = wrapped_walk(sizes, total_width, (n - 1) as nat);
        let size = sizes[n - 1];
        let (column, row) = wrapped_start(walk, size, total_width);
        let row_height = if walk.0 + size.width > total_width {
            0
        } else {
            walk.2
        };
        (column + size.width, row, if size.height > row_height {
            size.height as int
        } else {
            row_height
        })
    }
}

/// The place of child `i` of a wrapped list `total_width` wide, as its first
/// column and row and the column and row just past it.
pub open spec fn wrapped_area(sizes: Seq<TerminalSize>, total_width: int, i: int) -> (int, int, int, int) {
    let size = sizes[i];
    let (column, row) = wrapped_start(wrapped_walk(sizes, total_width, i as nat), size, total_width);
    (column, row, column + size.width, row + size.height)
}

/// Two places, each given as its first column and row and the column and
/// row just past it, share a cell.
pub open spec fn areas_overlap(a: (int, int, int, int), b: (int, int, int, int)) -> bool {
    a.0 < b.2 && b.0 < a.2 && a.1 < b.3 && b.1 < a.3
}

/// Every child placed so far lies above the cursor's row, or on it, left of
/// the cursor and no lower than the row's height.
proof fn lemma_wrapped_walk_behind(sizes: Seq<TerminalSize>, total_width: int, n: nat)
    requires
        sizes_fit(sizes),
        n <= sizes.len(),
    ensures
        ({
            let (column, row, row_height) = wrapped_walk(sizes, total_width, n);
            &&& row_height >= 0
            &&& forall|i: int|
                0 <= i < n ==> {
                    let area = #[trigger] wrapped_area(sizes, total_width, i);
                    ||| area.3 <= row
                    ||| (area.1 == row && area.2 <= column && area.3 <= row + row_height)
                }
        }),
    decreases n,
{
    if n > 0 {
        lemma_wrapped_walk_behind(sizes, total_width, (n - 1) as nat);
        assert(0 <= sizes[n - 1].width && 0 <= sizes[n - 1].height);
    }
}

/// No two children of a wrapped list are given places that share a cell: a
/// child goes right of the one before it on the same row, or on a new row
/// below the tallest child of the row before.
pub proof fn lemma_wrapped_areas_disjoint(sizes: Seq<TerminalSize>, total_width: int, i: int, j: int)
    requires
        sizes_fit(sizes),
        0 <= i < j < sizes.len(),
    ensures
        !areas_overlap(wrapped_area(sizes, total_width, i), wrapped_area(sizes, total_width, j)),
{
    lemma_wrapped_walk_behind(sizes, total_width, j as nat);
}

/// Laying out a prefix of the children walks as drawing walks, and reaches as
/// far as the places that drawing gives them, where the constraint's maximum
/// is `total_width` for every extent reached.
proof fn lemma_wrapped_extent_walk(sizes: Seq<TerminalSize>, max: AxisConstraint, total_width: int, n: nat)
    requires
        sizes_fit(sizes),
        n <= sizes.len(),
        forall|x: int| 0 <= x <= sizes.len() * 0x10000 ==> (#[trigger] max.spec_overflows(x) <==> x > total_width),
    ensures
        ({
            let (column, row, row_height, max_width, max_height) = wrapped_extent(sizes.take(n as int), max);
            &&& (column, row, row_height) == wrapped_walk(sizes, total_width, n)
            &&& forall|i: int|
                0 <= i < n ==> (#[trigger] wrapped_area(sizes, total_width, i)).2 <= max_width
                    && wrapped_area(sizes, total_width, i).3 <= max_height
            &&& n == 0 ==> max_width == 0 && max_height == 0
            &&& n > 0 ==> exists|i: int| 0 <= i < n && (#[trigger] wrapped_area(sizes, total_width, i)).2 == max_width
            &&& n > 0 ==> exists|i: int| 0 <= i < n && (#[trigger] wrapped_area(sizes, total_width, i)).3 == max_height
        }),
    decreases n,
{
    if n > 0 {
        let prefix = sizes.take(n as int);
        let init = sizes.take(n - 1);
        assert(prefix.drop_last() =~= init);
        assert(prefix.last() == sizes[n - 1]);
        lemma_wrapped_extent_walk(sizes, max, total_width, (n - 1) as nat);
        assert(sizes_fit(init)) by {
            assert forall|i: int| 0 <= i < init.len() implies 0 <= (#[trigger] init[i]).width <= u16::MAX
                && 0 <= init[i].height <= u16::MAX by {
                assert(init[i] == sizes[i]);
            }
        }
        lemma_wrapped_extent_bounds(init, max);
        let (column, row, row_height, max_width, max_height) = wrapped_extent(init, max);
        let size = sizes[n - 1];
        assert(0 <= size.width <= u16::MAX && 0 <= size.height <= u16::MAX);
        assert(size.width + column <= sizes.len() * 0x10000);
        assert(max.spec_overflows(size.width + column) == (column + size.width > total_width));
        let area = wrapped_area(sizes, total_width, n - 1);
        let (_, _, _, new_width, new_height) = wrapped_extent(prefix, max);
        if n > 1 {
            if new_width != area.2 {
                let i = choose|i: int| 0 <= i < n - 1 && (#[trigger] wrapped_area(sizes, total_width, i)).2
                    == max_width;
                assert(wrapped_area(sizes, total_width, i).2 == new_width);
            }
            if new_height != area.3 {
                let i = choose|i: int| 0 <= i < n - 1 && (#[trigger] wrapped_area(sizes, total_width, i)).3
                    == max_height;
                assert(wrapped_area(sizes, total_width, i).3 == new_height);
            }
        }
    }
}

/// The extent a wrapped list's layout finds, before the constraints bound it,
/// is as wide and as high as the furthest reach of the places that drawing
/// gives the children: each child after a wrap starts below the tallest child
/// of the row before. `total_width` is where the width constraint overflows:
/// its maximum, or without one any width the children cannot reach.
pub proof fn lemma_wrapped_extent_reaches_areas(sizes: Seq<TerminalSize>, max: AxisConstraint, total_width: int)
    requires
        sizes_fit(sizes),
        forall|x: int| 0 <= x <= sizes.len() * 0x10000 ==> (#[trigger] max.spec_overflows(x) <==> x > total_width),
    ensures
        ({
            let (_, _, _, max_width, max_height) = wrapped_extent(sizes, max);
            &&& forall|i: int|
                0 <= i < sizes.len() ==> (#[trigger] wrapped_area(sizes, total_width, i)).2 <= max_width
                    && wrapped_area(sizes, total_width, i).3 <= max_height
            &&& sizes.len() == 0 ==> max_width == 0 && max_height == 0
            &&& sizes.len() > 0 ==> exists|i: int|
                0 <= i < sizes.len() && (#[trigger] wrapped_area(sizes, total_width, i)).2 == max_width
            &&& sizes.len() > 0 ==> exists|i: int|
                0 <= i < sizes.len() && (#[trigger] wrapped_area(sizes, total_width, i)).3 == max_height
        }),
{
    lemma_wrapped_extent_walk(sizes, max, total_width, sizes.len());
    assert(sizes.take(sizes.len() as int) =~= sizes);
}

/// Drawing the first `n` children of a wrapped list `total_width` wide, each
/// in the place [`wrapped_area`] gives it: the cells, and whether drawing has
/// stopped, which it does where a place would not fit the scalar type.
pub open spec fn wrapped_drawing<W: Widget>(
    children: Seq<W>,
    sizes: Seq<TerminalSize>,
    total_width: int,
    root: TerminalSize,
    bounds: TerminalRect,
    cells: Seq<TerminalCell>,
    n: nat,
) -> (Seq<TerminalCell>, bool)
    decreases n,
{
    if n == 0 {
        (cells, false)
    } else {
        let (drawn, stopped) = wrapped_drawing(children, sizes, total_width, root, bounds, cells, (n - 1) as nat);
        let (column, row, end_column, end_row) = wrapped_area(sizes, total_width, n - 1);
        let start = TerminalPos { column: column as i32, row: row as i32 };
        let end = TerminalPos { column: end_column as i32, row: end_row as i32 };
        if stopped || !fits_scalar(column) || !fits_scalar(row) || !fits_scalar(end_column)
            || !fits_scalar(end_row) || !bounds.start.can_add_pos(start) || !bounds.end.can_add_pos(end) {
            (drawn, true)
        } else {
            (children[n - 1].drawn(root, sub_bounds(bounds, TerminalRect { start, end }), drawn), false)
        }
    }
}

/// Once drawing has stopped, the cells stay as they are.
proof fn lemma_wrapped_drawing_stopped<W: Widget>(
    children: Seq<W>,
    sizes: Seq<TerminalSize>,
    total_width: int,
    root: TerminalSize,
    bounds: TerminalRect,
    cells: Seq<TerminalCell>,
    k: nat,
    n: nat,
)
    ensures
        k <= n && wrapped_drawing(children, sizes, total_width, root, bounds, cells, k).1 ==> {
            &&& wrapped_drawing(children, sizes, total_width, root, bounds, cells, n).1
            &&& wrapped_drawing(children, sizes, total_width, root, bounds, cells, n).0
                == wrapped_drawing(children, sizes, total_width, root, bounds, cells, k).0
        },
    decreases n,
{
    if k < n {
        lemma_wrapped_drawing_stopped(children, sizes, total_width, root, bounds, cells, k, (n - 1) as nat);
    }
}

/// The frame's corners can be offset by `start` and `end` without leaving the scalar type.
fn frame_can_offset(frame: &Frame, start: TerminalPos, end: TerminalPos) -> (r: bool)
    ensures
        r == (frame.bounds().start.can_add_pos(start) && frame.bounds().end.can_add_pos(end)),
{
    let bounds = frame.bounds_exec();
    let a = bounds.start.column as i64 + start.column as i64;
    let b = bounds.start.row as i64 + start.row as i64;
    let c = bounds.end.column as i64 + end.column as i64;
    let d = bounds.end.row as i64 + end.row as i64;
    i32::MIN as i64 <= a && a <= i32::MAX as i64 && i32::MIN as i64 <= b && b <= i32::MAX as i64
        && i32::MIN as i64 <= c && c <= i32::MAX as i64 && i32::MIN as i64 <= d && d
        <= i32::MAX as i64
}

/// The sum of the heights of `sizes`.
pub open spec fn total_height(sizes: Seq<TerminalSize>) -> int
    decreases sizes.len(),
{
    if sizes.len() == 0 {
        0
    } else {
        total_height(sizes.drop_last()) + sizes.last().height
    }
}

/// The largest width in `sizes` (0 when there are none).
pub open spec fn widest(sizes: Seq<TerminalSize>) -> int
    decreases sizes.len(),
{
    if sizes.len() == 0 {
        0
    } else {
        let rest = widest(sizes.drop_last());
        if rest > sizes.last().width {
            rest
        } else {
            sizes.last().width as int
        }
    }
}

pub proof fn lemma_stack_bounds(sizes: Seq<TerminalSize>)
    requires
        sizes_fit(sizes),
    ensures
        0 <= total_height(sizes) <= sizes.len() * 0xffff,
        0 <= widest(sizes) <= 0xffff,
    decreases sizes.len(),
{
    if sizes.len() > 0 {
        let init = sizes.drop_last();
        assert(sizes_fit(init)) by {
            assert forall|i: int| 0 <= i < init.len() implies 0 <= (#[trigger] init[i]).width <= u16::MAX
                && 0 <= init[i].height <= u16::MAX by {
                assert(init[i] == sizes[i]);
            }
        }
        assert(sizes.last() == sizes[sizes.len() - 1]);
        lemma_stack_bounds(init);
    }
}

/// The constraints a stacked child is laid out under: the list's width
/// constraint, and no height constraint.
pub open spec fn stacked_child_constraints(constraints: BoxConstraints) -> BoxConstraints {
    BoxConstraints { width: constraints.width, height: AxisConstraint::spec_unconstrained() }
}

#[derive(Clone, Debug)]
pub struct VerticalListWidget<W> {
    children: Vec<W>,
    computed_child_sizes: Vec<TerminalSize>,
    computed_size: Option<TerminalSize>,
}

impl<W> VerticalListWidget<W> {
    pub fn new(children: Vec<W>) -> (r: Self)
        ensures
            r.children() == children@,
            r.child_sizes() == Seq::<TerminalSize>::empty(),
            r.computed_size() == None::<TerminalSize>,
    {
        Self { children, computed_child_sizes: Vec::new(), computed_size: None }
    }

    pub closed spec fn children(&self) -> Seq<W> {
        self.children@
    }

    /// The sizes the children were given, in the order they were laid out
    /// (the last child first).
    pub closed spec fn child_sizes(&self) -> Seq<TerminalSize> {
        self.computed_child_sizes@
    }

    pub closed spec fn computed_size(&self) -> Option<TerminalSize> {
        self.computed_size
    }
}

impl<W: Widget> VerticalListWidget<W> {
    /// The children laid out from the last one up, each with no height
    /// constraint. A child is laid out as long as the heights of the children
    /// below it add up to no more than the maximum height, so one that starts
    /// exactly at the maximum is still laid out; the children above the first
    /// one that is not stay as they were. Their sizes are appended to those
    /// already recorded; the total height and the widest width (held at
    /// `u16::MAX`) are brought within the constraints. Drawing starts at the
    /// top, so where the children laid out are taller than the frame, the last
    /// of them fall below it.
    pub open spec fn stacks_as(&self, after: Self, constraints: BoxConstraints, size: TerminalSize) -> bool {
        let n = self.children().len();
        let old_count = self.child_sizes().len();
        let sizes = after.child_sizes().skip(old_count as int);
        &&& after.children().len() == n
        &&& after.child_sizes().len() >= old_count
        &&& after.child_sizes().take(old_count as int) == self.child_sizes()
        &&& sizes.len() <= n
        &&& forall|j: int|
            0 <= j < sizes.len() ==> (#[trigger] self.children()[n - 1 - j]).laid_out_as(
                after.children()[n - 1 - j],
                stacked_child_constraints(constraints),
                sizes[j],
            )
        &&& forall|k: int| 0 <= k < n - sizes.len() ==> #[trigger] after.children()[k] == self.children()[k]
        &&& sizes_fit(sizes)
        &&& forall|j: int|
            0 <= j < sizes.len() ==> !constraints.height.spec_overflows(#[trigger] total_height(sizes.take(j)))
        &&& sizes.len() < n ==> constraints.height.spec_overflows(total_height(sizes))
        &&& size == constrained_size(constraints, clamp_extent(widest(sizes)), clamp_extent(total_height(sizes)))
        &&& after.computed_size() == Some(size)
    }

    /// The children that layout sized drawn as [`stacked_drawing`] places them;
    /// nothing before a layout.
    pub open spec fn stacked_drawn(&self, root: TerminalSize, bounds: TerminalRect, cells: Seq<TerminalCell>) -> Seq<
        TerminalCell,
    > {
        match self.computed_size() {
            None => cells,
            Some(size) => {
                let count = drawable_count(self.children().len(), self.child_sizes().len());
                stacked_drawing(
                    self.children(),
                    self.child_sizes(),
                    count,
                    size.width,
                    root,
                    bounds,
                    cells,
                    count,
                ).0
            },
        }
    }

}

impl<W: Widget> Widget for VerticalListWidget<W> {
    /// Every child can be laid out with the list's width constraint and no
    /// height constraint.
    open spec fn can_layout(&self, constraints: BoxConstraints) -> bool {
        forall|i: int|
            0 <= i < self.children().len() ==> (#[trigger] self.children()[i]).can_layout(
                stacked_child_constraints(constraints),
            )
    }

    /// See [`VerticalListWidget::stacks_as`].
    open spec fn laid_out_as(&self, after: Self, constraints: BoxConstraints, size: TerminalSize) -> bool {
        self.stacks_as(after, constraints, size)
    }

    fn layout(&mut self, constraints: BoxConstraints) -> (r: TerminalSize) {
        let mut total: i128 = 0;
        let mut max_width: i128 = 0;
        let ghost base = self.computed_child_sizes@;
        let child_constraints = BoxConstraints {
            height: AxisConstraint::unconstrained(),
            width: constraints.width,
        };
        let mut remaining = self.children.len();
        proof {
            assert(self.computed_child_sizes@.skip(base.len() as int) =~= Seq::<TerminalSize>::empty());
            assert forall|k: int| 0 <= k < old(self).children@.len() implies (#[trigger] old(
                self,
            ).children@[k]).can_layout(stacked_child_constraints(constraints)) by {
                assert(old(self).children()[k] == old(self).children@[k]);
            }
        }
        while remaining > 0
            invariant_except_break
                remaining <= self.children@.len(),
                self.children@.len() == old(self).children@.len(),
                self.children@.len() <= usize::MAX,
                child_constraints == stacked_child_constraints(constraints),
                forall|k: int|
                    0 <= k < remaining ==> #[trigger] self.children@[k] == old(self).children@[k],
                forall|j: int|
                    0 <= j < self.children@.len() - remaining ==> (#[trigger] old(self).children@[self.children@.len() - 1 - j]).laid_out_as(
                        self.children@[self.children@.len() - 1 - j],
                        child_constraints,
                        self.computed_child_sizes@[base.len() + j],
                    ),
                forall|k: int|
                    0 <= k < old(self).children@.len() ==> (#[trigger] old(self).children@[k]).can_layout(
                        child_constraints,
                    ),
                self.computed_child_sizes@.len() == base.len() + (self.children@.len() - remaining),
                self.computed_child_sizes@.take(base.len() as int) == base,
                sizes_fit(self.computed_child_sizes@.skip(base.len() as int)),
                forall|j: int|
                    0 <= j < self.computed_child_sizes@.skip(base.len() as int).len()
                        ==> !constraints.height.spec_overflows(
                        #[trigger] total_height(self.computed_child_sizes@.skip(base.len() as int).take(j)),
                    ),
                total == total_height(self.computed_child_sizes@.skip(base.len() as int)),
                max_width == widest(self.computed_child_sizes@.skip(base.len() as int)),
            invariant
                self.children@.len() == old(self).children@.len(),
                child_constraints == stacked_child_constraints(constraints),
                self.computed_child_sizes@.take(base.len() as int) == base,
                self.computed_child_sizes@.len() >= base.len(),
                self.computed_child_sizes@.len() - base.len() <= self.children@.len(),
                forall|j: int|
                    0 <= j < self.computed_child_sizes@.len() - base.len() ==> (#[trigger] old(self).children@[self.children@.len() - 1 - j]).laid_out_as(
                        self.children@[self.children@.len() - 1 - j],
                        child_constraints,
                        self.computed_child_sizes@[base.len() + j],
                    ),
                forall|k: int|
                    0 <= k < self.children@.len() - (self.computed_child_sizes@.len() - base.len()) ==> #[trigger] self.children@[k] == old(self).children@[k],
                sizes_fit(self.computed_child_sizes@.skip(base.len() as int)),
                forall|j: int|
                    0 <= j < self.computed_child_sizes@.skip(base.len() as int).len()
                        ==> !constraints.height.spec_overflows(
                        #[trigger] total_height(self.computed_child_sizes@.skip(base.len() as int).take(j)),
                    ),
                total == total_height(self.computed_child_sizes@.skip(base.len() as int)),
                max_width == widest(self.computed_child_sizes@.skip(base.len() as int)),
            ensures
                self.computed_child_sizes@.len() - base.len() < self.children@.len()
                    ==> constraints.height.spec_overflows(
                    total_height(self.computed_child_sizes@.skip(base.len() as int)),
                ),
            decreases remaining,
        {
            let ghost sizes = self.computed_child_sizes@.skip(base.len() as int);
            // stop once the children laid out pass the maximum height
            if constraints.height.overflows_extent(total) {
                break;
            }
            proof {
                lemma_stack_bounds(sizes);
                assert(sizes.len() * 0xffff <= 0x1_0000_0000_0000_0000 * 0xffff) by (nonlinear_arith)
                    requires
                        sizes.len() <= 0x1_0000_0000_0000_0000,
                ;
            }
            let index = remaining - 1;
            let child_size = self.children[index].layout(child_constraints);
            self.computed_child_sizes.push(child_size);
            proof {
                let new_sizes = self.computed_child_sizes@.skip(base.len() as int);
                assert(new_sizes =~= sizes.push(child_size));
                assert(new_sizes.drop_last() =~= sizes);
                assert(self.computed_child_sizes@.take(base.len() as int) =~= base);
                assert(sizes_fit(new_sizes)) by {
                    assert forall|k: int| 0 <= k < new_sizes.len() implies 0 <= (
                    #[trigger] new_sizes[k]).width <= u16::MAX && 0 <= new_sizes[k].height
                        <= u16::MAX by {
                        if k < sizes.len() {
                            assert(new_sizes[k] == sizes[k]);
                        }
                    }
                }
                assert forall|j: int| 0 <= j < new_sizes.len() implies !constraints.height.spec_overflows(
                    #[trigger] total_height(new_sizes.take(j)),
                ) by {
                    if j < sizes.len() {
                        assert(new_sizes.take(j) =~= sizes.take(j));
                    } else {
                        assert(new_sizes.take(j) =~= sizes);
                    }
                }
            }
            total = total + child_size.height as i128;
            if child_size.width as i128 > max_width {
                max_width = child_size.width as i128;
            }
            remaining = index;
        }
        let bounds = apply_constraints(constraints, clamp_to_u16(max_width), clamp_to_u16(total));
        self.computed_size = Some(bounds);
        bounds
    }

    /// See [`VerticalListWidget::stacked_drawn`].
    open spec fn drawn(&self, root: TerminalSize, bounds: TerminalRect, cells: Seq<TerminalCell>) -> Seq<
        TerminalCell,
    > {
        self.stacked_drawn(root, bounds, cells)
    }

    /// Draws the children that layout sized, top to bottom, each on full
    /// width and its own height; nothing is drawn before a layout, and drawing
    /// stops where a place would not fit the scalar type.
    fn render(&self, frame: &mut Frame) {
        let total_width = match self.computed_size {
            Some(size) => size.width,
            None => {
                return ;
            },
        };
        let ghost root = frame.root_size();
        let ghost bounds = frame.bounds();
        let ghost start_cells = frame.cells();
        let count = if self.children.len() < self.computed_child_sizes.len() {
            self.children.len()
        } else {
            self.computed_child_sizes.len()
        };
        let first = self.children.len() - count;
        let mut current_base: i64 = 0;
        let mut j: usize = 0;
        while j < count
            invariant
                j <= count,
                count == drawable_count(self.children@.len(), self.computed_child_sizes@.len()),
                self.children@.len() <= usize::MAX,
                count <= self.children@.len(),
                count <= self.computed_child_sizes@.len(),
                first == self.children@.len() - count,
                self.computed_size matches Some(size) && total_width == size.width,
                frame.wf(),
                frame.root_size() == root,
                frame.bounds() == bounds,
                frame.cells().len() == start_cells.len(),
                root == old(frame).root_size(),
                bounds == old(frame).bounds(),
                start_cells == old(frame).cells(),
                i32::MIN <= current_base <= i32::MAX,
                ({
                    let (drawn, base, stopped) = stacked_drawing(
                        self.children@,
                        self.computed_child_sizes@,
                        count as nat,
                        total_width,
                        root,
                        bounds,
                        start_cells,
                        j as nat,
                    );
                    &&& frame.cells() == drawn
                    &&& current_base == base
                    &&& !stopped
                }),
            decreases count - j,
        {
            proof {
                lemma_stacked_drawing_stopped(
                    self.children@,
                    self.computed_child_sizes@,
                    count as nat,
                    total_width,
                    root,
                    bounds,
                    start_cells,
                    (j + 1) as nat,
                    count as nat,
                );
            }
            let child_size = self.computed_child_sizes[count - 1 - j];
            let bottom = current_base + child_size.height as i64;
            if bottom > i32::MAX as i64 || bottom < i32::MIN as i64 {
                return ;
            }
            let start = TerminalPos { column: 0, row: current_base as i32 };
            let end = TerminalPos { column: total_width, row: bottom as i32 };
            if !frame_can_offset(frame, start, end) {
                return ;
            }
            frame.render_widget(TerminalRect { start, end }, &self.children[first + j]);
            current_base = bottom;
            j = j + 1;
        }
    }
}

/// Drawing the first `n` of the last `count` children of a vertical list,
/// top to bottom, each `width` wide and as high as its recorded size (the
/// sizes were recorded from the last child up): the cells, the row where the
/// next child goes, and whether drawing has stopped, which it does where a
/// place would not fit the scalar type.
pub open spec fn stacked_drawing<W: Widget>(
    children: Seq<W>,
    sizes: Seq<TerminalSize>,
    count: nat,
    width: i32,
    root: TerminalSize,
    bounds: TerminalRect,
    cells: Seq<TerminalCell>,
    n: nat,
) -> (Seq<TerminalCell>, int, bool)
    decreases n,
{
    if n == 0 {
        (cells, 0, false)
    } else {
        let (drawn, base, stopped) = stacked_drawing(children, sizes, count, width, root, bounds, cells, (n - 1) as nat);
        let size = sizes[count - n];
        let bottom = base + size.height;
        let start = TerminalPos { column: 0, row: base as i32 };
        let end = TerminalPos { column: width, row: bottom as i32 };
        if stopped || !fits_scalar(bottom) || !bounds.start.can_add_pos(start) || !bounds.end.can_add_pos(
            end,
        ) {
            (drawn, base, true)
        } else {
            let child = children[children.len() - count + n - 1];
            (child.drawn(root, sub_bounds(bounds, TerminalRect { start, end }), drawn), bottom, false)
        }
    }
}

/// The sum of the heights of a size put in front of `sizes` and of `sizes`.
proof fn lemma_total_height_front(size: TerminalSize, sizes: Seq<TerminalSize>)
    ensures
        total_height(seq![size] + sizes) == size.height + total_height(sizes),
    decreases sizes.len(),
{
    if sizes.len() == 0 {
        assert(seq![size] + sizes =~= seq![size]);
        assert(seq![size].drop_last() =~= Seq::<TerminalSize>::empty());
        assert(total_height(Seq::<TerminalSize>::empty()) == 0);
        assert(total_height(seq![size]) == total_height(seq![size].drop_last()) + seq![size].last().height);
    } else {
        assert((seq![size] + sizes).last() == sizes.last());
        lemma_total_height_front(size, sizes.drop_last());
        assert((seq![size] + sizes).drop_last() =~= seq![size] + sizes.drop_last());
    }
}

/// The rows a vertical list gives the child it draws `j`-th from the top,
/// out of the last `count` children whose sizes were recorded from the last
/// child up: from the sum of the heights of the children drawn before it, as
/// many rows as its own height.
pub open spec fn stacked_band(sizes: Seq<TerminalSize>, count: nat, j: int) -> (int, int) {
    let top = total_height(sizes.subrange(count - j, count as int));
    (top, top + sizes[count - 1 - j].height)
}

/// Drawing in a vertical list puts each child in its band: the `n`-th child
/// from the top is drawn over the first `n - 1` in the rows [`stacked_band`]
/// gives it, on the list's full width, and drawing goes on below the children
/// drawn so far. Drawing stops only where that place does not fit the scalar
/// type, within the frame or on its own.
pub proof fn lemma_stacked_drawing_bands<W: Widget>(
    children: Seq<W>,
    sizes: Seq<TerminalSize>,
    count: nat,
    width: i32,
    root: TerminalSize,
    bounds: TerminalRect,
    cells: Seq<TerminalCell>,
    n: nat,
)
    requires
        count <= sizes.len(),
        count <= children.len(),
        n <= count,
    ensures
        !stacked_drawing(children, sizes, count, width, root, bounds, cells, n).2 ==> stacked_drawing(
            children,
            sizes,
            count,
            width,
            root,
            bounds,
            cells,
            n,
        ).1 == total_height(sizes.subrange(count - n, count as int)),
        n > 0 && !stacked_drawing(children, sizes, count, width, root, bounds, cells, n).2 ==> {
            let (top, bottom) = stacked_band(sizes, count, n - 1);
            let start = TerminalPos { column: 0, row: top as i32 };
            let end = TerminalPos { column: width, row: bottom as i32 };
            &&& fits_scalar(top) && fits_scalar(bottom)
            &&& bounds.start.can_add_pos(start) && bounds.end.can_add_pos(end)
            &&& stacked_drawing(children, sizes, count, width, root, bounds, cells, n).0
                == children[children.len() - count + n - 1].drawn(
                root,
                sub_bounds(bounds, TerminalRect { start, end }),
                stacked_drawing(children, sizes, count, width, root, bounds, cells, (n - 1) as nat).0,
            )
        },
        n > 0 && !stacked_drawing(children, sizes, count, width, root, bounds, cells, (n - 1) as nat).2
            ==> {
            let (top, bottom) = stacked_band(sizes, count, n - 1);
            let start = TerminalPos { column: 0, row: top as i32 };
            let end = TerminalPos { column: width, row: bottom as i32 };
            stacked_drawing(children, sizes, count, width, root, bounds, cells, n).2 == !(fits_scalar(
                bottom,
            ) && bounds.start.can_add_pos(start) && bounds.end.can_add_pos(end))
        },
    decreases n,
{
    if n == 0 {
        assert(sizes.subrange(count as int, count as int) =~= Seq::<TerminalSize>::empty());
    } else {
        lemma_stacked_drawing_bands(children, sizes, count, width, root, bounds, cells, (n - 1) as nat);
        let below = sizes.subrange(count - n + 1, count as int);
        assert(sizes.subrange(count - n, count as int) =~= seq![sizes[count - n]] + below);
        lemma_total_height_front(sizes[count - n], below);
    }
}

/// The bands of different children of a vertical list do not share a row:
/// a child drawn lower starts where the ones above it end.
pub proof fn lemma_stacked_bands_disjoint(sizes: Seq<TerminalSize>, count: nat, i: int, j: int)
    requires
        sizes_fit(sizes),
        count <= sizes.len(),
        0 <= i < j < count,
    ensures
        stacked_band(sizes, count, i).1 <= stacked_band(sizes, count, j).0,
    decreases j - i,
{
    let below = sizes.subrange(count - j, count as int);
    assert(sizes.subrange(count - j - 1 + 1, count as int) == below);
    if j == i + 1 {
        assert(sizes.subrange(count - i, count as int) =~= below.subrange(1, below.len() as int));
        assert(below =~= seq![below[0]] + below.subrange(1, below.len() as int));
        lemma_total_height_front(below[0], below.subrange(1, below.len() as int));
    } else {
        lemma_stacked_bands_disjoint(sizes, count, i, j - 1);
        lemma_stacked_bands_disjoint(sizes, count, j - 1, j);
        assert(0 <= sizes[count - 1 - (j - 1)].height);
    }
}

/// Once drawing has stopped, the cells stay as they are.
proof fn lemma_stacked_drawing_stopped<W: Widget>(
    children: Seq<W>,
    sizes: Seq<TerminalSize>,
    count: nat,
    width: i32,
    root: TerminalSize,
    bounds: TerminalRect,
    cells: Seq<TerminalCell>,
    k: nat,
    n: nat,
)
    ensures
        k <= n && stacked_drawing(children, sizes, count, width, root, bounds, cells, k).2 ==> {
            &&& stacked_drawing(children, sizes, count, width, root, bounds, cells, n).2
            &&& stacked_drawing(children, sizes, count, width, root, bounds, cells, n).0
                == stacked_drawing(children, sizes, count, width, root, bounds, cells, k).0
        },
    decreases n,
{
    if k < n {
        lemma_stacked_drawing_stopped(children, sizes, count, width, root, bounds, cells, k, (n - 1) as nat);
    }
}

/// One of the two children of a [`horizontal`] list.
#[derive(Clone, Debug)]
pub enum Either<A, B> {
    First(A),
    Last(B),
}

impl<A: Widget, B: Widget> Widget for Either<A, B> {
    open spec fn can_layout(&self, constraints: BoxConstraints) -> bool {
        match self {
            Either::First(a) => a.can_layout(constraints),
            Either::Last(b) => b.can_layout(constraints),
        }
    }

    open spec fn laid_out_as(&self, after: Self, constraints: BoxConstraints, size: TerminalSize) -> bool {
        match (self, after) {
            (Either::First(a), Either::First(b)) => a.laid_out_as(b, constraints, size),
            (Either::Last(a), Either::Last(b)) => a.laid_out_as(b, constraints, size),
            _ => false,
        }
    }

    fn layout(&mut self, constraints: BoxConstraints) -> (r: TerminalSize) {
        match self {
            Either::First(a) => a.layout(constraints),
            Either::Last(b) => b.layout(constraints),
        }
    }

    open spec fn drawn(&self, root: TerminalSize, bounds: TerminalRect, cells: Seq<TerminalCell>) -> Seq<
        TerminalCell,
    > {
        match self {
            Either::First(a) => a.drawn(root, bounds, cells),
            Either::Last(b) => b.drawn(root, bounds, cells),
        }
    }

    fn render(&self, frame: &mut Frame) {
        match self {
            Either::First(a) => a.render(frame),
            Either::Last(b) => b.render(frame),
        }
    }
}

/// `first` and then `last`, side by side, wrapping when they do not fit.
pub fn horizontal<A: Widget, B: Widget>(first: A, last: B) -> (r: WrappedListWidget<Either<A, B>>)
    ensures
        r.children() == seq![Either::<A, B>::First(first), Either::<A, B>::Last(last)],
        r.child_sizes() == Seq::<TerminalSize>::empty(),
        r.computed_size() == None::<TerminalSize>,
{
    let children = vec![Either::First(first), Either::Last(last)];
    proof {
        assert(children@ =~= seq![Either::<A, B>::First(first), Either::<A, B>::Last(last)]);
    }
    WrappedListWidget::new(children)
}

} // verus!
