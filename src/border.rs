//! The eight glyphs that draw a rectangular border.
use vstd::prelude::*;

verus! {

#[derive(Clone, Copy, PartialEq, Eq, Structural, Debug)]
pub struct BorderLine {
    pub l: char,
    pub r: char,
    pub t: char,
    pub b: char,
    pub lt: char,
    pub rt: char,
    pub lb: char,
    pub rb: char,
}

impl BorderLine {
    pub fn new(
        left: char,
        right: char,
        top: char,
        bottom: char,
        left_top: char,
        right_top: char,
        left_bottom: char,
        right_bottom: char,
    ) -> (line: Self)
        ensures
            line == (BorderLine {
                l: left,
                r: right,
                t: top,
                b: bottom,
                lt: left_top,
                rt: right_top,
                lb: left_bottom,
                rb: right_bottom,
            }),
    {
        BorderLine {
            l: left,
            r: right,
            t: top,
            b: bottom,
            lt: left_top,
            rt: right_top,
            lb: left_bottom,
            rb: right_bottom,
        }
    }
}

/// Blank glyphs.
pub fn space() -> (line: BorderLine)
    ensures
        line == (BorderLine {
            l: ' ',
            r: ' ',
            t: ' ',
            b: ' ',
            lt: ' ',
            rt: ' ',
            lb: ' ',
            rb: ' ',
        }),
{
    BorderLine::new(' ', ' ', ' ', ' ', ' ', ' ', ' ', ' ')
}

/// Thin single lines with square corners.
pub fn single() -> (line: BorderLine)
    ensures
        line == (BorderLine {
            l: '│',
            r: '│',
            t: '─',
            b: '─',
            lt: '┌',
            rt: '┐',
            lb: '└',
            rb: '┘',
        }),
{
    BorderLine::new('│', '│', '─', '─', '┌', '┐', '└', '┘')
}

/// Thin single lines with rounded corners.
pub fn single_rounded() -> (line: BorderLine)
    ensures
        line == (BorderLine {
            l: '│',
            r: '│',
            t: '─',
            b: '─',
            lt: '╭',
            rt: '╮',
            lb: '╰',
            rb: '╯',
        }),
{
    BorderLine::new('│', '│', '─', '─', '╭', '╮', '╰', '╯')
}

/// Dotted lines with square corners.
pub fn dotted() -> (line: BorderLine)
    ensures
        line == (BorderLine {
            l: '┆',
            r: '┆',
            t: '┄',
            b: '┄',
            lt: '┌',
            rt: '┐',
            lb: '└',
            rb: '┘',
        }),
{
    BorderLine::new('┆', '┆', '┄', '┄', '┌', '┐', '└', '┘')
}

/// Dotted lines with rounded corners.
pub fn dotted_rounded() -> (line: BorderLine)
    ensures
        line == (BorderLine {
            l: '┆',
            r: '┆',
            t: '┄',
            b: '┄',
            lt: '╭',
            rt: '╮',
            lb: '╰',
            rb: '╯',
        }),
{
    BorderLine::new('┆', '┆', '┄', '┄', '╭', '╮', '╰', '╯')
}

/// Double lines.
pub fn double() -> (line: BorderLine)
    ensures
        line == (BorderLine {
            l: '║',
            r: '║',
            t: '═',
            b: '═',
            lt: '╔',
            rt: '╗',
            lb: '╚',
            rb: '╝',
        }),
{
    BorderLine::new('║', '║', '═', '═', '╔', '╗', '╚', '╝')
}

} // verus!
