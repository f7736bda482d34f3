//! Layout settings of UI nodes.
use vstd::prelude::*;

verus! {

/// How a node lays out its children; `Hidden` (CSS `display: none`) hides it.
#[derive(Debug, Clone, Copy, PartialEq, Eq, Structural)]
pub enum Display {
    Flex,
    Grid,
    Block,
    Hidden,
}

impl Default for Display {
    fn default() -> (r: Self)
        ensures
            r == Display::Block,
    {
        Display::Block
    }
}

/// Whether a node takes part in its parent's layout.
#[derive(Debug, Clone, Copy, PartialEq, Eq, Structural)]
pub enum Position {
    Relative,
    Absolute,
}

impl Default for Position {
    fn default() -> (r: Self)
        ensures
            r == Position::Relative,
    {
        Position::Relative
    }
}

/// Main axis of a flex container and the order along it.
#[derive(Debug, Clone, Copy, PartialEq, Eq, Structural)]
pub enum FlexDirection {
    Row,
    RowReverse,
    Column,
    ColumnReverse,
}

impl Default for FlexDirection {
    fn default() -> (r: Self)
        ensures
            r == FlexDirection::Row,
    {
        FlexDirection::Row
    }
}

impl FlexDirection {
    /// True for `RowReverse` and `ColumnReverse`
    pub fn is_reverse(&self) -> (r: bool)
        ensures
            r == (*self == FlexDirection::RowReverse || *self == FlexDirection::ColumnReverse),
    {
        match self {
            Self::RowReverse | Self::ColumnReverse => true,
            _ => false,
        }
    }

    /// True for `Row` and `RowReverse`
    pub fn is_row(&self) -> (r: bool)
        ensures
            r == (*self == FlexDirection::Row || *self == FlexDirection::RowReverse),
    {
        match self {
            Self::Row | Self::RowReverse => true,
            _ => false,
        }
    }

    /// True for `Column` and `ColumnReverse`
    pub fn is_column(&self) -> (r: bool)
        ensures
            r == (*self == FlexDirection::Column || *self == FlexDirection::ColumnReverse),
    {
        match self {
            Self::Column | Self::ColumnReverse => true,
            _ => false,
        }
    }
}

/// Every direction runs along exactly one axis, rows or columns, and the four directions are
/// the two axes each taken forwards and in reverse.
pub proof fn lemma_flex_direction_axes(d: FlexDirection)
    ensures
        (d == FlexDirection::Row || d == FlexDirection::RowReverse) != (d == FlexDirection::Column
            || d == FlexDirection::ColumnReverse),
        d == FlexDirection::Row <==> (d == FlexDirection::Row || d == FlexDirection::RowReverse) && !(
        d == FlexDirection::RowReverse || d == FlexDirection::ColumnReverse),
        d == FlexDirection::Column <==> (d == FlexDirection::Column || d
            == FlexDirection::ColumnReverse) && !(d == FlexDirection::RowReverse || d
            == FlexDirection::ColumnReverse),
{
}

/// How children are distributed along the main axis.
#[derive(Debug, Clone, Copy, PartialEq, Eq, Structural)]
pub enum JustifyContent {
    FlexStart,
    FlexEnd,
    Center,
    SpaceBetween,
    SpaceAround,
    SpaceEvenly,
}

impl Default for JustifyContent {
    fn default() -> (r: Self)
        ensures
            r == JustifyContent::FlexStart,
    {
        JustifyContent::FlexStart
    }
}

/// How children are placed along the cross axis.
#[derive(Debug, Clone, Copy, PartialEq, Eq, Structural)]
pub enum AlignItems {
    FlexStart,
    FlexEnd,
    Center,
    Stretch,
}

impl Default for AlignItems {
    fn default() -> (r: Self)
        ensures
            r == AlignItems::Stretch,
    {
        AlignItems::Stretch
    }
}

/// Whether a node's size includes its padding and border.
#[derive(Debug, Clone, Copy, PartialEq, Eq, Structural)]
pub enum BoxSizing {
    ContentBox,
    BorderBox,
}

impl Default for BoxSizing {
    fn default() -> (r: Self)
        ensures
            r == BoxSizing::BorderBox,
    {
        BoxSizing::BorderBox
    }
}

} // verus!
