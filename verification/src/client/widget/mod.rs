//! The widget interface and the size constraints that layout works under.
use vstd::prelude::*;

use super::terminal::{Frame, TerminalCell, TerminalRect, TerminalSize};

pub mod list;
pub mod text;

verus! {

/// Something that can be sized and then drawn into a frame.
pub trait Widget: Sized {
    /// The widget can be sized under `constraints` without failing.
    spec fn can_layout(&self, constraints: BoxConstraints) -> bool;

    /// `after` is this widget once laid out under `constraints`, the layout
    /// having given `size`.
    spec fn laid_out_as(&self, after: Self, constraints: BoxConstraints, size: TerminalSize) -> bool;

    /// Sizes the widget under `constraints`; every size fits a `u16`.
    fn layout(&mut self, constraints: BoxConstraints) -> (r: TerminalSize)
        requires
            old(self).can_layout(constraints),
        ensures
            0 <= r.width <= u16::MAX,
            0 <= r.height <= u16::MAX,
            old(self).laid_out_as(*final(self), constraints, r),
    ;

    /// The cells of a screen of `root` size, holding `cells`, after the widget
    /// draws into `bounds` of it.
    spec fn drawn(&self, root: TerminalSize, bounds: TerminalRect, cells: Seq<TerminalCell>) -> Seq<TerminalCell>;

    /// Draws into `frame`; the frame keeps its screen, its bounds and its
    /// buffer's length.
    fn render(&self, frame: &mut Frame)
        requires
            old(frame).wf(),
        ensures
            final(frame).wf(),
            final(frame).root_size() == old(frame).root_size(),
            final(frame).bounds() == old(frame).bounds(),
            final(frame).cells().len() == old(frame).cells().len(),
            final(frame).cells() == self.drawn(old(frame).root_size(), old(frame).bounds(), old(frame).cells()),
    ;
}

#[derive(Copy, Clone, Debug, Eq, PartialEq, Hash)]
pub struct BoxConstraints {
    pub width: AxisConstraint,
    pub height: AxisConstraint,
}

impl Default for BoxConstraints {
    fn default() -> (r: Self)
        ensures
            r.width == AxisConstraint::spec_unconstrained(),
            r.height == AxisConstraint::spec_unconstrained(),
    {
        Self { width: AxisConstraint::unconstrained(), height: AxisConstraint::unconstrained() }
    }
}

#[derive(Copy, Clone, Debug, Eq, PartialEq, Hash, Default)]
pub struct AxisConstraint {
    pub min: Option<u16>,
    pub max: Option<u16>,
}

impl AxisConstraint {
    pub open spec fn spec_unconstrained() -> AxisConstraint {
        AxisConstraint { min: None, max: None }
    }

    pub fn unconstrained() -> (r: AxisConstraint)
        ensures
            r == Self::spec_unconstrained(),
    {
        Self { min: None, max: None }
    }

    pub fn bounded_maximum(value: u16) -> (r: AxisConstraint)
        ensures
            r == (AxisConstraint { min: None, max: Some(value) }),
    {
        Self { min: None, max: Some(value) }
    }

    pub fn bounded_minimum(value: u16) -> (r: AxisConstraint)
        ensures
            r == (AxisConstraint { min: Some(value), max: None }),
    {
        Self { min: Some(value), max: None }
    }

    pub fn bounded(min: u16, max: u16) -> (r: AxisConstraint)
        ensures
            r == (AxisConstraint { min: Some(min), max: Some(max) }),
    {
        Self { min: Some(min), max: Some(max) }
    }

    /// `value` is above the maximum, if there is one.
    pub open spec fn spec_overflows(self, value: int) -> bool {
        match self.max {
            Some(max) => value > max,
            None => false,
        }
    }

    /// `value` is below the minimum, if there is one.
    pub open spec fn spec_underflows(self, value: int) -> bool {
        match self.min {
            Some(min) => value < min,
            None => false,
        }
    }

    pub fn overflows(&self, value: u16) -> (r: bool)
        ensures
            r == self.spec_overflows(value as int),
    {
        match self.max {
            Some(max) => value > max,
            None => false,
        }
    }

    pub fn underflows(&self, value: u16) -> (r: bool)
        ensures
            r == self.spec_underflows(value as int),
    {
        match self.min {
            Some(min) => value < min,
            None => false,
        }
    }

    /// [`Self::overflows`] for an extent that may not fit a `u16`.
    pub fn overflows_extent(&self, value: i128) -> (r: bool)
        ensures
            r == self.spec_overflows(value as int),
    {
        match self.max {
            Some(max) => value > max as i128,
            None => false,
        }
    }
}

/// `value` brought down to the maximum, then up to the minimum.
pub open spec fn constrained(constraint: AxisConstraint, value: u16) -> u16 {
    let capped = match constraint.max {
        Some(max) => if value < max { value } else { max },
        None => value,
    };
    match constraint.min {
        Some(min) => if capped > min { capped } else { min },
        None => capped,
    }
}

/// The size that `constraints` allow for a `width` by `height` extent.
pub open spec fn constrained_size(constraints: BoxConstraints, width: u16, height: u16) -> TerminalSize {
    TerminalSize {
        height: constrained(constraints.height, height) as i32,
        width: constrained(constraints.width, width) as i32,
    }
}

/// A constrained value meets the constraint: it is at least the minimum, and
/// at most the maximum when the maximum is not below the minimum; and
/// constraining it again changes nothing.
pub proof fn lemma_constrained_meets_constraint(constraint: AxisConstraint, value: u16)
    ensures
        !constraint.spec_underflows(constrained(constraint, value) as int),
        (match constraint.min {
            Some(min) => match constraint.max {
                Some(max) => min <= max,
                None => true,
            },
            None => true,
        }) ==> !constraint.spec_overflows(constrained(constraint, value) as int),
        constrained(constraint, constrained(constraint, value)) == constrained(constraint, value),
{
}

pub fn apply_axis_constraint(constraint: AxisConstraint, value: u16) -> (r: u16)
    ensures
        r == constrained(constraint, value),
{
    let value = match constraint.max {
        Some(max) => if value < max { value } else { max },
        None => value,
    };
    let value = match constraint.min {
        Some(min) => if value > min { value } else { min },
        None => value,
    };
    value
}

pub fn apply_constraints(constraints: BoxConstraints, width: u16, height: u16) -> (r: TerminalSize)
    ensures
        r == constrained_size(constraints, width, height),
        0 <= r.width <= u16::MAX,
        0 <= r.height <= u16::MAX,
{
    TerminalSize {
        height: apply_axis_constraint(constraints.height, height) as i32,
        width: apply_axis_constraint(constraints.width, width) as i32,
    }
}

/// An extent that may exceed a `u16`, held at `u16::MAX` when it does.
pub open spec fn clamp_extent(value: int) -> u16 {
    if value < 0 {
        0
    } else if value > u16::MAX {
        u16::MAX
    } else {
        value as u16
    }
}

pub fn clamp_to_u16(value: i128) -> (r: u16)
    ensures
        r == clamp_extent(value as int),
{
    if value < 0 {
        0
    } else if value > u16::MAX as i128 {
        u16::MAX
    } else {
        value as u16
    }
}

} // verus!
